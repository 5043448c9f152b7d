use viewskater::img_cache::{CompressionStrategy, ImageCache, ImageMetadata, PathSource};
use viewskater::load_op::{LoadOperation, LoadOperationType};
use viewskater::load_plan::{
    load_all_images_in_queue, load_images_by_indices, load_images_by_operation, load_images_by_operation_slider,
    load_next_images_all, load_prev_images_all, start_next_operation, LoadPlan,
};
use viewskater::loading::{handle_load_operation_all, handle_load_pos_operation};
use viewskater::loading_status::LoadingStatus;
use viewskater::pane::Pane;

fn plain(list: &[Option<(PathSource, bool)>]) -> Vec<Option<(String, bool)>> {
    list.iter().map(|e| e.as_ref().map(|(p, a)| (p.path().clone(), *a))).collect()
}

fn fs(path: &str, archived: bool) -> Option<(String, bool)> {
    Some((path.to_string(), archived))
}

fn paths(n: usize) -> Vec<PathSource> {
    (0..n).map(|i| PathSource::Filesystem(format!("/images/img{}.png", i))).collect()
}

fn loaded_pane(n: usize, c: usize, cur: usize, start: isize, offset: isize) -> Pane<u32> {
    let mut p: Pane<u32> = Pane::new(0, CompressionStrategy::Uncompressed);
    let mut cache: ImageCache<u32> = ImageCache::new(&paths(n), c, CompressionStrategy::Uncompressed, cur);
    for slot in 0..(2 * c + 1) {
        let idx = start + slot as isize;
        cache.fill_slot(slot, Some(idx as u32), Some(ImageMetadata::new(1, 1, 1)), idx);
    }
    cache.current_offset = offset;
    p.img_cache = cache;
    p.dir_loaded = true;
    p.is_selected = true;
    p
}

#[test]
fn arrived_next_image_moves_the_window() {
    // after showing image 3, the window (1, 2, 3) waits for image 4
    let mut panes = vec![loaded_pane(6, 1, 3, 1, 1)];
    let mut status = LoadingStatus::new();
    status.enqueue_image_being_loaded(LoadOperation::LoadNext((vec![0], vec![Some(4)])));
    let op = LoadOperation::LoadNext((vec![0], vec![Some(4)]));
    let redraw = handle_load_operation_all(
        &mut panes, &mut status, &vec![0], &vec![Some(4)], vec![Some(40)],
        &vec![Some(ImageMetadata::new(8, 9, 10))], &op, LoadOperationType::LoadNext);
    assert!(status.being_loaded_queue.is_empty());
    let c = &panes[0].img_cache;
    assert_eq!(c.cached_data, vec![Some(2), Some(3), Some(40)]);
    assert_eq!(c.cached_image_indices, vec![2, 3, 4]);
    assert_eq!(c.current_offset, 0);
    assert_eq!(c.cached_metadata[2].map(|m| m.width), Some(8));
    assert_eq!(redraw, vec![0]);
}

#[test]
fn stale_or_shifted_arrivals_change_nothing() {
    let mut panes = vec![loaded_pane(6, 1, 2, 1, 1)];
    let mut status = LoadingStatus::new();
    let op = LoadOperation::LoadNext((vec![0], vec![Some(5)]));
    let redraw = handle_load_operation_all(
        &mut panes, &mut status, &vec![0], &vec![Some(5)], vec![Some(50)], &vec![], &op,
        LoadOperationType::LoadNext);
    assert!(redraw.is_empty());
    assert_eq!(panes[0].img_cache.cached_data, vec![Some(1), Some(2), Some(3)]);
    let shift = LoadOperation::ShiftNext((vec![0], vec![None]));
    status.enqueue_image_being_loaded(LoadOperation::ShiftNext((vec![0], vec![None])));
    let redraw = handle_load_operation_all(
        &mut panes, &mut status, &vec![0], &vec![None], vec![None], &vec![], &shift,
        LoadOperationType::ShiftNext);
    assert!(redraw.is_empty());
    assert!(status.being_loaded_queue.is_empty());
    assert_eq!(panes[0].img_cache.current_offset, 1);
}

#[test]
fn blocked_pane_ends_the_visit() {
    // the window is at its first position: a forward load is blocked
    let mut panes = vec![loaded_pane(6, 1, 0, 0, -1), loaded_pane(6, 1, 2, 1, 1)];
    let mut status = LoadingStatus::new();
    let op = LoadOperation::LoadNext((vec![0, 1], vec![Some(3), Some(4)]));
    let redraw = handle_load_operation_all(
        &mut panes, &mut status, &vec![0, 1], &vec![Some(3), Some(4)], vec![Some(30), Some(40)], &vec![], &op,
        LoadOperationType::LoadNext);
    assert!(redraw.is_empty());
    assert_eq!(panes[1].img_cache.cached_data, vec![Some(1), Some(2), Some(3)]);
}

#[test]
fn arrived_previous_image_moves_back() {
    // after showing image 2, the window (2, 3, 4) waits for image 1
    let mut panes = vec![loaded_pane(6, 1, 2, 2, -1)];
    let mut status = LoadingStatus::new();
    let op = LoadOperation::LoadPrevious((vec![0], vec![Some(1)]));
    let redraw = handle_load_operation_all(
        &mut panes, &mut status, &vec![0], &vec![Some(1)], vec![Some(10)], &vec![], &op,
        LoadOperationType::LoadPrevious);
    assert_eq!(panes[0].img_cache.cached_data, vec![Some(10), Some(2), Some(3)]);
    assert_eq!(panes[0].img_cache.cached_image_indices, vec![1, 2, 3]);
    assert_eq!(panes[0].img_cache.current_offset, 0);
    assert_eq!(redraw, vec![0]);
}

#[test]
fn slider_arrivals_fill_their_slots() {
    let mut panes = vec![loaded_pane(10, 1, 5, 4, 0)];
    let mut status = LoadingStatus::new();
    status.enqueue_image_being_loaded(LoadOperation::LoadPos((0, vec![Some((5, 1))])));
    let targets = vec![Some((5, 1)), None, Some((20, 2)), Some((6, 2))];
    let redraw = handle_load_pos_operation(
        &mut panes, &mut status, 0, &targets, vec![Some(55), Some(1), Some(200), None],
        &vec![Some(ImageMetadata::new(3, 4, 5))]);
    assert!(redraw);
    assert!(status.being_loaded_queue.is_empty());
    let c = &panes[0].img_cache;
    assert_eq!(c.cached_data, vec![Some(4), Some(55), Some(6)]);
    assert_eq!(c.cached_metadata[1].map(|m| m.height), Some(4));
    let mut none_panes: Vec<Pane<u32>> = vec![];
    assert!(!handle_load_pos_operation(&mut none_panes, &mut status, 0, &targets, vec![], &vec![]));
}

#[test]
fn starting_operations_moves_them_in_flight() {
    let mut status = LoadingStatus::new();
    assert!(start_next_operation(&mut status).is_none());
    status.enqueue_image_load(LoadOperation::LoadNext((vec![0], vec![Some(3)])));
    status.enqueue_image_load(LoadOperation::ShiftPrevious((vec![0], vec![None])));
    let op = start_next_operation(&mut status).unwrap();
    assert_eq!(op.operation_type(), LoadOperationType::LoadNext);
    assert_eq!(status.loading_queue.len(), 1);
    assert_eq!(status.being_loaded_queue.len(), 1);
}

#[test]
fn plans_for_each_kind_of_operation() {
    let mut panes = vec![loaded_pane(10, 1, 5, 4, 0)];
    panes[0].has_compressed_file = true;
    assert_eq!(plain(&load_images_by_indices(&panes, &vec![Some(7)])), vec![fs("/images/img7.png", true)]);
    assert_eq!(plain(&load_images_by_indices(&panes, &vec![Some(12)])), vec![None]);
    let mut status = LoadingStatus::new();
    assert!(matches!(load_images_by_operation(&panes, &mut status), LoadPlan::Nothing));
    status.enqueue_image_load(LoadOperation::LoadNext((vec![0], vec![Some(7)])));
    status.enqueue_image_load(LoadOperation::ShiftNext((vec![0], vec![None])));
    status.enqueue_image_load(LoadOperation::LoadPos((0, vec![])));
    match load_images_by_operation(&panes, &mut status) {
        LoadPlan::Fetch(op, list) => {
            assert_eq!(op.operation_type(), LoadOperationType::LoadNext);
            assert_eq!(list.len(), 1);
            assert!(list[0].is_some());
        }
        _ => panic!("expected a fetch"),
    }
    match load_images_by_operation(&panes, &mut status) {
        LoadPlan::Shift(_, n) => assert_eq!(n, 1),
        _ => panic!("expected a shift"),
    }
    assert!(matches!(load_images_by_operation(&panes, &mut status), LoadPlan::Held(_)));
    assert_eq!(status.being_loaded_queue.len(), 3);
}

#[test]
fn slider_fetch_records_slot_indices() {
    let mut panes = vec![loaded_pane(10, 1, 5, 4, 0)];
    let list = load_images_by_operation_slider(&mut panes, 0, &vec![Some((8, 0)), Some((30, 1)), None]).unwrap();
    assert_eq!(list.len(), 3);
    assert_eq!(plain(&list), vec![fs("/images/img8.png", false), None, None]);
    assert_eq!(panes[0].img_cache.cached_image_indices, vec![8, 5, 6]);
    assert!(load_images_by_operation_slider(&mut panes, 3, &vec![]).is_none());
}

#[test]
fn draining_the_queue_starts_every_operation() {
    let mut panes = vec![loaded_pane(10, 1, 5, 4, 0)];
    let mut status = LoadingStatus::new();
    status.enqueue_image_load(LoadOperation::LoadPos((0, vec![Some((2, 0))])));
    status.enqueue_image_load(LoadOperation::LoadNext((vec![0], vec![Some(7)])));
    status.enqueue_image_load(LoadOperation::LoadPos((4, vec![Some((2, 0))])));
    let fetches = load_all_images_in_queue(&mut panes, &mut status);
    assert!(status.loading_queue.is_empty());
    assert_eq!(status.being_loaded_queue.len(), 3);
    assert_eq!(fetches.len(), 1);
    assert_eq!(plain(&fetches[0].1), vec![fs("/images/img2.png", false)]);
    assert_eq!(panes[0].img_cache.cached_image_indices[0], 2);
}

#[test]
fn next_load_is_queued_and_started() {
    let panes = vec![loaded_pane(10, 2, 6, 3, 1)];
    let mut status = LoadingStatus::new();
    match load_next_images_all(&panes, vec![0], &mut status) {
        LoadPlan::Fetch(op, list) => {
            assert_eq!(op.operation_type(), LoadOperationType::LoadNext);
            assert_eq!(plain(&list), vec![fs("/images/img8.png", false)]);
        }
        _ => panic!("expected a fetch"),
    }
    assert!(status.loading_queue.is_empty());
    assert_eq!(status.being_loaded_queue.len(), 1);
    // the same targets are in flight already: nothing more is queued
    assert!(matches!(load_next_images_all(&panes, vec![0], &mut status), LoadPlan::Nothing));
    assert_eq!(status.being_loaded_queue.len(), 1);
}

#[test]
fn previous_load_is_queued_and_started() {
    let panes = vec![loaded_pane(10, 2, 4, 3, -1)];
    let mut status = LoadingStatus::new();
    match load_prev_images_all(&panes, vec![0], &mut status) {
        LoadPlan::Fetch(op, list) => {
            assert_eq!(op.operation_type(), LoadOperationType::LoadPrevious);
            assert_eq!(plain(&list), vec![fs("/images/img2.png", false)]);
        }
        _ => panic!("expected a fetch"),
    }
}

#[test]
fn starting_keeps_the_number_of_operations() {
    let mut status = LoadingStatus::new();
    status.enqueue_image_load(LoadOperation::LoadNext((vec![0], vec![Some(3)])));
    status.enqueue_image_load(LoadOperation::LoadPrevious((vec![0], vec![Some(1)])));
    let before = status.loading_queue.len() + status.being_loaded_queue.len();
    start_next_operation(&mut status);
    assert_eq!(status.loading_queue.len() + status.being_loaded_queue.len(), before);
    start_next_operation(&mut status);
    assert_eq!(status.loading_queue.len() + status.being_loaded_queue.len(), before);
    assert!(start_next_operation(&mut status).is_none());
    assert_eq!(status.being_loaded_queue.len(), before);
}

#[test]
fn slider_move_queues_and_starts_its_targets() {
    let mut panes = vec![loaded_pane(20, 2, 5, 10, 0)];
    let mut status = LoadingStatus::new();
    let reads = viewskater::load_plan::get_loading_tasks_slider(&mut panes, &mut status, 0, 5);
    assert!(status.loading_queue.is_empty());
    assert_eq!(status.being_loaded_queue.len(), 1);
    assert_eq!(status.being_loaded_queue[0].operation_type(), LoadOperationType::LoadPos);
    assert_eq!(reads.len(), 1);
    assert_eq!(
        plain(&reads[0].1),
        vec![
            fs("/images/img6.png", false),
            fs("/images/img4.png", false),
            fs("/images/img7.png", false),
            fs("/images/img3.png", false),
        ]
    );
    assert_eq!(panes[0].img_cache.cached_image_indices, vec![3, 4, 12, 6, 7]);
    // no pane with that index: nothing happens
    assert!(viewskater::load_plan::get_loading_tasks_slider(&mut panes, &mut status, 4, 5).is_empty());
    assert_eq!(status.being_loaded_queue.len(), 1);
}

#[test]
fn remaining_images_load_for_every_open_pane() {
    let mut closed = loaded_pane(20, 2, 5, 10, 0);
    closed.dir_loaded = false;
    let mut panes = vec![loaded_pane(20, 2, 5, 10, 0), closed, loaded_pane(20, 2, 0, 10, 0)];
    let mut status = LoadingStatus::new();
    status.enqueue_image_load(LoadOperation::LoadNext((vec![0], vec![Some(9)])));
    status.enqueue_image_being_loaded(LoadOperation::LoadNext((vec![0], vec![Some(8)])));
    let reads = viewskater::load_plan::load_remaining_images(&mut panes, &mut status, -1, 5);
    assert!(status.loading_queue.is_empty());
    assert_eq!(status.being_loaded_queue.len(), 2);
    assert_eq!(reads.len(), 2);
    assert_eq!(panes[0].img_cache.cached_image_indices, vec![3, 4, 12, 6, 7]);
    assert_eq!(panes[1].img_cache.cached_image_indices, vec![10, 11, 12, 13, 14]);
    assert_eq!(panes[2].img_cache.cached_image_indices, vec![3, 4, 12, 6, 7]);
    let own = viewskater::load_plan::load_remaining_images(&mut panes, &mut status, 1, 5);
    assert!(own.is_empty());
    assert!(status.being_loaded_queue.is_empty());
}

#[test]
fn shift_arrival_only_finishes_the_front_operation() {
    // a fresh pane with no window could not take a step, but a shift needs none
    let mut panes: Vec<Pane<u32>> = vec![Pane::new(0, CompressionStrategy::Uncompressed)];
    let mut status = LoadingStatus::new();
    status.enqueue_image_load(LoadOperation::LoadNext((vec![0], vec![Some(1)])));
    status.enqueue_image_being_loaded(LoadOperation::ShiftPrevious((vec![0], vec![None])));
    status.enqueue_image_being_loaded(LoadOperation::LoadNext((vec![0], vec![Some(2)])));
    let shift = LoadOperation::ShiftPrevious((vec![0], vec![None]));
    let redraw = handle_load_operation_all(
        &mut panes, &mut status, &vec![0], &vec![], vec![], &vec![], &shift, LoadOperationType::ShiftPrevious);
    assert!(redraw.is_empty());
    assert_eq!(status.being_loaded_queue.len(), 1);
    assert_eq!(status.being_loaded_queue[0].operation_type(), LoadOperationType::LoadNext);
    assert_eq!(status.loading_queue.len(), 1);
    assert!(panes[0].img_cache.cached_data.is_empty());
}
