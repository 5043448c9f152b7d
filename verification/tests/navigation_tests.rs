use viewskater::img_cache::{CompressionStrategy, ImageCache, ImageMetadata, PathSource};
use viewskater::load_op::LoadOperationType;
use viewskater::load_plan::LoadPlan;
use viewskater::loading_status::LoadingStatus;
use viewskater::navigation::{move_left_all, move_right_all};
use viewskater::pane::{Pane, PaneLayout};

fn paths(n: usize) -> Vec<PathSource> {
    (0..n).map(|i| PathSource::Filesystem(format!("/images/img{}.png", i))).collect()
}

fn loaded_pane(n: usize, c: usize, cur: usize, start: isize, offset: isize) -> Pane<u32> {
    let mut p: Pane<u32> = Pane::new(0, CompressionStrategy::Uncompressed);
    let mut cache: ImageCache<u32> = ImageCache::new(&paths(n), c, CompressionStrategy::Uncompressed, cur);
    for slot in 0..(2 * c + 1) {
        let idx = start + slot as isize;
        cache.fill_slot(slot, Some(idx as u32), Some(ImageMetadata::new(1, 1, 1)), idx);
    }
    cache.current_offset = offset;
    p.img_cache = cache;
    p.dir_loaded = true;
    p.is_selected = true;
    p
}

#[test]
fn moving_right_shows_the_next_image_and_asks_for_more() {
    let mut panes = vec![loaded_pane(10, 2, 5, 3, 0)];
    let mut status = LoadingStatus::new();
    let mut slider: u16 = 0;
    let plans = move_right_all(&mut panes, &mut status, &mut slider, &PaneLayout::SinglePane, false, 0);
    assert_eq!(panes[0].img_cache.current_index, 6);
    assert_eq!(panes[0].img_cache.current_offset, 1);
    assert!(panes[0].is_next_image_loaded);
    assert!(status.is_next_image_loaded);
    assert_eq!(slider, 6);
    assert_eq!(plans.len(), 1);
    match &plans[0] {
        LoadPlan::Fetch(op, list) => {
            assert_eq!(op.operation_type(), LoadOperationType::LoadNext);
            assert_eq!(list[0].as_ref().map(|(p, _)| p.path().clone()), Some("/images/img8.png".to_string()));
        }
        _ => panic!("expected a fetch"),
    }
    assert_eq!(status.being_loaded_queue.len(), 1);
}

#[test]
fn moving_right_at_the_last_image_does_nothing() {
    let mut panes = vec![loaded_pane(10, 2, 9, 5, 2)];
    let mut status = LoadingStatus::new();
    let mut slider: u16 = 3;
    let plans = move_right_all(&mut panes, &mut status, &mut slider, &PaneLayout::SinglePane, false, 0);
    assert!(plans.is_empty());
    assert_eq!(panes[0].img_cache.current_index, 9);
    assert_eq!(slider, 3);
}

#[test]
fn unselected_panes_stay_put() {
    let mut panes = vec![loaded_pane(10, 2, 5, 3, 0), loaded_pane(10, 2, 5, 3, 0)];
    panes[1].is_selected = false;
    let mut status = LoadingStatus::new();
    let mut slider: u16 = 0;
    move_right_all(&mut panes, &mut status, &mut slider, &PaneLayout::DualPane, true, 0);
    assert_eq!(panes[0].img_cache.current_index, 6);
    assert_eq!(panes[1].img_cache.current_index, 5);
    assert_eq!(panes[0].slider_value, 6);
}

#[test]
fn moving_left_shows_the_previous_image() {
    let mut panes = vec![loaded_pane(10, 2, 5, 3, 0)];
    let mut status = LoadingStatus::new();
    let mut slider: u16 = 0;
    let plans = move_left_all(&mut panes, &mut status, &mut slider, &PaneLayout::SinglePane, false, 0);
    assert_eq!(panes[0].img_cache.current_index, 4);
    assert_eq!(panes[0].img_cache.current_offset, -1);
    assert!(panes[0].is_prev_image_loaded);
    assert!(status.is_prev_image_loaded);
    assert_eq!(slider, 4);
    assert_eq!(plans.len(), 1);
    match &plans[0] {
        LoadPlan::Fetch(op, list) => {
            assert_eq!(op.operation_type(), LoadOperationType::LoadPrevious);
            assert_eq!(list[0].as_ref().map(|(p, _)| p.path().clone()), Some("/images/img2.png".to_string()));
        }
        _ => panic!("expected a fetch"),
    }
}

#[test]
fn moving_left_at_the_first_image_does_nothing() {
    let mut panes = vec![loaded_pane(10, 2, 0, 0, -2)];
    let mut status = LoadingStatus::new();
    let mut slider: u16 = 1;
    assert!(move_left_all(&mut panes, &mut status, &mut slider, &PaneLayout::SinglePane, false, 0).is_empty());
    assert_eq!(slider, 1);
}
