use viewskater::img_cache::{CompressionStrategy, ImageCache, ImageMetadata, PathSource};
use viewskater::loading_status::LoadingStatus;
use viewskater::pane::{
    are_all_next_images_loaded, are_all_prev_images_loaded, are_panes_cached_next, are_panes_cached_prev,
    calculate_loading_conditions_for_next, calculate_loading_conditions_for_previous, get_master_slider_value,
    get_pane_with_largest_dir_size, get_target_indices_for_next, get_target_indices_for_previous,
    init_is_next_image_loaded, is_dir_size_bigger, resize_panes, set_next_image_all, set_prev_image_all,
    should_enqueue_loading, Pane, PaneLayout, SliderState,
};
use viewskater::load_op::LoadOperation;

fn paths(n: usize) -> Vec<PathSource> {
    (0..n).map(|i| PathSource::Filesystem(format!("/images/img{}.png", i))).collect()
}

/// A selected, loaded pane over `n` paths with `c` images each side, the window starting at
/// image `start`, the current image `cur`, and every slot filled.
fn loaded_pane(n: usize, c: usize, cur: usize, start: isize, offset: isize) -> Pane<u32> {
    let mut p: Pane<u32> = Pane::new(0, CompressionStrategy::Uncompressed);
    let mut cache: ImageCache<u32> = ImageCache::new(&paths(n), c, CompressionStrategy::Uncompressed, cur);
    for slot in 0..(2 * c + 1) {
        let idx = start + slot as isize;
        cache.fill_slot(slot, Some(idx as u32), Some(ImageMetadata::new(1, 1, 1)), idx);
    }
    cache.current_offset = offset;
    p.img_cache = cache;
    p.dir_loaded = true;
    p.is_selected = true;
    p.is_next_image_loaded = false;
    p.is_prev_image_loaded = false;
    p
}

#[test]
fn new_pane_is_fresh() {
    let p: Pane<u32> = Pane::new(3, CompressionStrategy::Bc1);
    assert_eq!(p.pane_id, 3);
    assert!(p.is_selected);
    assert!(!p.dir_loaded);
    assert!(p.directory_path.is_none());
    assert_eq!(p.slider_value, 0);
    assert_eq!(p.compression_strategy, CompressionStrategy::Bc1);
    assert!(!SliderState::new().is_dragging);
}

#[test]
fn reset_state_forgets_the_directory() {
    let mut p = loaded_pane(10, 2, 5, 3, 0);
    p.directory_path = Some("/images".to_string());
    p.slider_value = 5;
    p.is_selected = false;
    p.reset_state();
    assert!(p.directory_path.is_none());
    assert!(!p.dir_loaded);
    assert!(p.is_selected);
    assert_eq!(p.slider_value, 0);
    assert!(p.img_cache.image_paths.is_empty());
}

#[test]
fn render_next_moves_forward_and_slider_follows_in_dual_mode() {
    let mut p = loaded_pane(10, 2, 5, 3, 0);
    assert!(p.is_pane_cached_next());
    assert!(p.render_next_image(&PaneLayout::DualPane, true));
    assert_eq!(p.img_cache.current_index, 6);
    assert_eq!(p.img_cache.current_offset, 1);
    assert!(p.is_next_image_loaded);
    assert_eq!(p.slider_value, 6);
    let mut single = loaded_pane(10, 2, 5, 3, 0);
    assert!(single.render_next_image(&PaneLayout::SinglePane, true));
    assert_eq!(single.slider_value, 0);
}

#[test]
fn render_next_stops_when_the_slot_is_empty() {
    let mut p = loaded_pane(10, 2, 7, 5, 2);
    assert!(!p.is_pane_cached_next());
    assert!(!p.render_next_image(&PaneLayout::SinglePane, false));
    assert_eq!(p.img_cache.current_index, 7);
    assert_eq!(p.img_cache.current_offset, 2);
}

#[test]
fn render_prev_moves_back() {
    let mut p = loaded_pane(10, 2, 5, 3, 0);
    assert!(p.is_pane_cached_prev());
    assert!(p.render_prev_image(&PaneLayout::SinglePane, false));
    assert_eq!(p.img_cache.current_index, 4);
    assert_eq!(p.img_cache.current_offset, -1);
    assert!(p.is_prev_image_loaded);
    let mut first = loaded_pane(10, 2, 0, 0, -2);
    assert!(!first.render_prev_image(&PaneLayout::SinglePane, false));
}

#[test]
fn targets_for_next_and_previous() {
    let mut panes = vec![loaded_pane(10, 2, 5, 3, 0), loaded_pane(10, 2, 1, 0, -1)];
    panes[1].is_selected = false;
    assert_eq!(get_target_indices_for_next(&panes), vec![Some(8), None]);
    assert_eq!(get_target_indices_for_previous(&panes), vec![Some(2), None]);
    let edge = vec![loaded_pane(10, 2, 1, 0, -1)];
    assert_eq!(get_target_indices_for_previous(&edge), vec![None]);
}

#[test]
fn loading_conditions_for_next() {
    let panes = vec![loaded_pane(10, 2, 5, 3, 0)];
    let targets = get_target_indices_for_next(&panes);
    let (list, within, out_of_bounds) = calculate_loading_conditions_for_next(&panes, &targets).unwrap();
    assert_eq!(list, vec![Some(8)]);
    assert!(within);
    assert!(!out_of_bounds);
    let last = vec![loaded_pane(10, 2, 9, 5, 2)];
    let (list, within, out_of_bounds) = calculate_loading_conditions_for_next(&last, &vec![Some(12)]).unwrap();
    assert_eq!(list, vec![Some(12)]);
    assert!(!within);
    assert!(out_of_bounds);
    let empty: Vec<Pane<u32>> = vec![];
    assert!(calculate_loading_conditions_for_next(&empty, &vec![]).is_none());
}

#[test]
fn loading_conditions_for_previous() {
    let panes = vec![loaded_pane(10, 2, 1, 0, -1)];
    let (list, within, any_none) = calculate_loading_conditions_for_previous(&panes, &vec![None]).unwrap();
    assert_eq!(list, vec![None]);
    assert!(within);
    assert!(any_none);
}

#[test]
fn should_enqueue_needs_range_and_fresh_targets() {
    let panes = vec![loaded_pane(10, 2, 5, 3, 0)];
    let status = LoadingStatus::new();
    let op = LoadOperation::LoadNext((vec![0], vec![Some(8)]));
    assert!(should_enqueue_loading(true, &status, &vec![Some(8)], &op, &panes));
    assert!(!should_enqueue_loading(false, &status, &vec![Some(8)], &op, &panes));
    let mut queued = LoadingStatus::new();
    queued.enqueue_image_load(LoadOperation::LoadNext((vec![0], vec![Some(8)])));
    assert!(!should_enqueue_loading(true, &queued, &vec![Some(8)], &op, &panes));
}

#[test]
fn shown_flags_and_cached_checks() {
    let mut panes = vec![loaded_pane(10, 2, 5, 3, 0), loaded_pane(10, 2, 5, 3, 0)];
    let status = LoadingStatus::new();
    assert!(!are_all_next_images_loaded(&panes, false, &status));
    panes[0].is_next_image_loaded = true;
    panes[1].is_selected = false;
    assert!(are_all_next_images_loaded(&panes, true, &status));
    assert!(!are_all_next_images_loaded(&panes, false, &status));
    init_is_next_image_loaded(&mut panes, &PaneLayout::DualPane, false);
    assert!(!panes[0].is_next_image_loaded && !panes[0].is_prev_image_loaded);
    assert!(!are_all_prev_images_loaded(&panes, false, &status));
    assert!(are_panes_cached_next(&panes, &PaneLayout::DualPane, false));
    assert!(are_panes_cached_prev(&panes, &PaneLayout::DualPane, false));
}

#[test]
fn set_next_and_prev_for_all_panes() {
    let mut panes = vec![loaded_pane(10, 2, 5, 3, 0), loaded_pane(10, 2, 7, 5, 2)];
    assert!(set_next_image_all(&mut panes, &PaneLayout::DualPane, false));
    assert_eq!(panes[0].img_cache.current_index, 6);
    assert_eq!(panes[1].img_cache.current_index, 7);
    let mut back = vec![loaded_pane(10, 2, 5, 3, 0)];
    assert!(set_prev_image_all(&mut back, &PaneLayout::SinglePane, false));
    assert_eq!(back[0].img_cache.current_index, 4);
    let mut empty_first = vec![loaded_pane(10, 2, 5, 3, 0)];
    empty_first[0].img_cache.cached_data[0] = None;
    assert!(!set_prev_image_all(&mut empty_first, &PaneLayout::SinglePane, false));
    assert_eq!(empty_first[0].img_cache.current_index, 5);
}

#[test]
fn largest_directory_drives_the_slider() {
    let panes = vec![loaded_pane(10, 2, 5, 3, 0), loaded_pane(20, 2, 7, 5, 0)];
    assert_eq!(get_pane_with_largest_dir_size(&panes), 1);
    assert_eq!(get_master_slider_value(&panes, &PaneLayout::DualPane, false, 0), 7);
    let empty = vec![Pane::<u32>::new(0, CompressionStrategy::Uncompressed)];
    assert_eq!(get_pane_with_largest_dir_size(&empty), -1);
    assert_eq!(get_master_slider_value(&empty, &PaneLayout::SinglePane, false, 0), 0);
}

#[test]
fn resize_adds_fresh_panes_and_truncates() {
    let mut panes = vec![loaded_pane(10, 2, 5, 3, 0)];
    resize_panes(&mut panes, 3, Some(CompressionStrategy::Bc1));
    assert_eq!(panes.len(), 3);
    assert!(panes[0].dir_loaded);
    assert_eq!(panes[2].pane_id, 2);
    assert_eq!(panes[2].compression_strategy, CompressionStrategy::Bc1);
    resize_panes(&mut panes, 1, None);
    assert_eq!(panes.len(), 1);
}

#[test]
fn dir_size_decides_the_shared_slider() {
    assert!(is_dir_size_bigger(&PaneLayout::SinglePane, false, 1, &[10, 20]));
    assert!(is_dir_size_bigger(&PaneLayout::DualPane, true, 1, &[10, 20]));
    assert!(!is_dir_size_bigger(&PaneLayout::DualPane, false, 15, &[10, 20]));
    assert!(is_dir_size_bigger(&PaneLayout::DualPane, false, 20, &[10, 20]));
    assert!(is_dir_size_bigger(&PaneLayout::DualPane, false, 0, &[]));
}

#[test]
fn initial_slider_follows_the_layout() {
    let mut p: Pane<u32> = Pane::new(0, CompressionStrategy::Uncompressed);
    let mut shared: u16 = 9;
    p.apply_initial_slider(&mut shared, &PaneLayout::DualPane, true, false, 4);
    assert_eq!((shared, p.slider_value), (4, 4));
    let mut q: Pane<u32> = Pane::new(0, CompressionStrategy::Uncompressed);
    let mut shared: u16 = 9;
    q.apply_initial_slider(&mut shared, &PaneLayout::DualPane, false, false, 4);
    assert_eq!((shared, q.slider_value), (9, 0));
    q.apply_initial_slider(&mut shared, &PaneLayout::DualPane, false, true, 4);
    assert_eq!(shared, 4);
}

#[test]
fn next_then_previous_comes_back() {
    let mut p = loaded_pane(10, 2, 5, 3, 0);
    assert!(p.render_next_image(&PaneLayout::SinglePane, false));
    assert_eq!((p.img_cache.current_index, p.img_cache.current_offset), (6, 1));
    assert!(p.render_prev_image(&PaneLayout::SinglePane, false));
    assert_eq!((p.img_cache.current_index, p.img_cache.current_offset), (5, 0));
    assert_eq!(p.img_cache.cached_image_indices, vec![3, 4, 5, 6, 7]);
}
