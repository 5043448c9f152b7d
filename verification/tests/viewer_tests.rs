use viewskater::img_cache::{CompressionStrategy, ImageCache, PathSource};
use viewskater::pane::{Pane, PaneLayout};
use viewskater::viewer::{begin_dir, finish_dir, set_mouse_wheel_zoom, toggle_pane_layout, toggle_slider_type, window_title, Listing};

fn pane_over(n: usize, cur: usize, selected: bool) -> Pane<u32> {
    let paths: Vec<PathSource> = (0..n).map(|i| PathSource::Filesystem(format!("/pics/p{}.jpg", i))).collect();
    let mut p: Pane<u32> = Pane::new(0, CompressionStrategy::Bc1);
    p.img_cache = ImageCache::new(&paths, 2, CompressionStrategy::Bc1, cur);
    p.dir_loaded = true;
    p.is_selected = selected;
    p
}

#[test]
fn slider_type_round_trip() {
    let mut panes = vec![pane_over(4, 1, false), pane_over(9, 6, true)];
    let mut dual = true;
    let mut slider: u16 = 0;
    toggle_slider_type(&mut panes, &mut dual, &mut slider, &PaneLayout::DualPane, 0);
    assert!(!dual);
    // the pane with the most files drives the shared slider
    assert_eq!(slider, 6);
    assert!(panes[0].is_selected && panes[1].is_selected);
    assert!(!panes[0].is_selected_cache && panes[1].is_selected_cache);
    assert!(!panes[0].is_next_image_loaded && !panes[1].is_prev_image_loaded);
    toggle_slider_type(&mut panes, &mut dual, &mut slider, &PaneLayout::DualPane, 0);
    assert!(dual);
    assert_eq!(slider, 6);
    assert_eq!((panes[0].slider_value, panes[1].slider_value), (1, 6));
    assert!(!panes[0].is_selected && panes[1].is_selected);
}

#[test]
fn pane_layout_grows_and_shrinks() {
    let mut panes = vec![pane_over(5, 3, false)];
    let mut layout = PaneLayout::SinglePane;
    let mut slider: u16 = 7;
    toggle_pane_layout(&mut panes, &mut layout, PaneLayout::DualPane, &mut slider, false, 0);
    assert_eq!(layout, PaneLayout::DualPane);
    assert_eq!(panes.len(), 2);
    assert_eq!(panes[1].pane_id, 1);
    assert!(!panes[1].dir_loaded);
    assert_eq!(panes[1].compression_strategy, CompressionStrategy::Bc1);
    assert_eq!(slider, 7);
    toggle_pane_layout(&mut panes, &mut layout, PaneLayout::SinglePane, &mut slider, false, 0);
    assert_eq!(layout, PaneLayout::SinglePane);
    assert_eq!(panes.len(), 1);
    assert_eq!(slider, 3);
    assert!(panes[0].is_selected);
}

#[test]
fn window_titles() {
    let title = "ViewSkater".to_string();
    let mut panes = vec![pane_over(5, 2, true), Pane::new(1, CompressionStrategy::Uncompressed)];
    assert_eq!(window_title(&panes, &PaneLayout::SinglePane, false, &title), "p2.jpg");
    assert_eq!(window_title(&panes, &PaneLayout::DualPane, false, &title), "Left: p2.jpg | Right: No File");
    assert_eq!(window_title(&panes, &PaneLayout::DualPane, true, &title), "Top: p2.jpg | Bottom: No File");
    panes[0].dir_loaded = false;
    assert_eq!(window_title(&panes, &PaneLayout::SinglePane, false, &title), "ViewSkater");
}

#[test]
fn panes_reopened_after_a_strategy_change() {
    let mut a = pane_over(3, 0, true);
    a.directory_path = Some("/pics".to_string());
    let b = pane_over(3, 0, true);
    let mut c = pane_over(3, 0, true);
    c.directory_path = Some("/more".to_string());
    c.dir_loaded = false;
    let mut d = pane_over(3, 0, true);
    d.directory_path = Some("/other".to_string());
    assert_eq!(viewskater::viewer::panes_to_reinitialize(&vec![a, b, c, d]), vec![0, 3]);
}

#[test]
fn slider_reads_for_each_pane() {
    let mut a = pane_over(5, 0, true);
    a.has_compressed_file = true;
    let b = pane_over(2, 0, true);
    let c: Pane<u32> = Pane::new(2, CompressionStrategy::Uncompressed);
    let panes = vec![a, b, c];
    let shared = viewskater::viewer::slider_reads(&panes, -1, 3);
    assert_eq!(shared.len(), 1);
    assert_eq!((shared[0].0, shared[0].1.path().as_str(), shared[0].2), (0, "/pics/p3.jpg", true));
    let own = viewskater::viewer::slider_reads(&panes, 1, 1);
    assert_eq!((own[0].0, own[0].1.path().as_str(), own[0].2), (1, "/pics/p1.jpg", false));
    assert!(viewskater::viewer::slider_reads(&panes, 1, 2).is_empty());
    assert!(viewskater::viewer::slider_reads(&panes, 7, 0).is_empty());
    assert!(viewskater::viewer::slider_reads(&panes, -2, 0).is_empty());
}

#[test]
fn opening_a_failed_or_empty_listing_changes_nothing() {
    let mut pane: Pane<u32> = Pane::new(0, CompressionStrategy::Bc1);
    assert!(begin_dir(&mut pane, Listing::Failed, 3, CompressionStrategy::Bc1).is_none());
    assert!(pane.directory_path.is_none() && !pane.dir_loaded);
    let empty = Listing::Archive("/pics/set.zip".to_string(), Vec::new());
    assert!(begin_dir(&mut pane, empty, 3, CompressionStrategy::Bc1).is_none());
    assert!(pane.directory_path.is_none() && !pane.dir_loaded && !pane.has_compressed_file);
}

#[test]
fn opening_a_folder_at_the_opened_file() {
    let files = vec!["/pics/a.jpg".to_string(), "/pics/b.jpg".to_string(), "/pics/c.jpg".to_string()];
    let mut pane: Pane<u32> = Pane::new(0, CompressionStrategy::Uncompressed);
    let listing = Listing::Folder("/pics".to_string(), files.clone(), Some("/pics/b.jpg".to_string()));
    let cache = begin_dir(&mut pane, listing, 2, CompressionStrategy::Uncompressed).unwrap();
    assert_eq!(cache.current_index, 1);
    assert_eq!(cache.num_files, 3);
    assert_eq!(cache.cache_count, 2);
    assert_eq!(cache.image_paths[2].path(), "/pics/c.jpg");
    assert!(matches!(cache.image_paths[0], PathSource::Filesystem(_)));
    assert_eq!(pane.directory_path.as_deref(), Some("/pics"));
    assert!(pane.dir_loaded && !pane.has_compressed_file);

    let mut slider: u16 = 0;
    finish_dir(&mut pane, cache, true, &mut slider, &PaneLayout::SinglePane, false, false);
    assert_eq!(slider, 1);
    assert_eq!(pane.img_cache.current_index, 1);
    assert_eq!(pane.img_cache.num_files, 3);
}

#[test]
fn opening_a_folder_without_the_opened_file_records_only_the_folder() {
    let files = vec!["/pics/a.jpg".to_string()];
    let mut pane: Pane<u32> = Pane::new(0, CompressionStrategy::Bc1);
    let listing = Listing::Folder("/pics".to_string(), files, Some("/elsewhere/z.jpg".to_string()));
    assert!(begin_dir(&mut pane, listing, 2, CompressionStrategy::Bc1).is_none());
    assert_eq!(pane.directory_path.as_deref(), Some("/pics"));
    assert!(!pane.dir_loaded);
}

#[test]
fn opening_an_archive_sorts_its_entries() {
    let entries = vec![
        PathSource::Archive("img10.png".to_string()),
        PathSource::Archive("img2.png".to_string()),
        PathSource::Archive("img1.png".to_string()),
    ];
    let mut pane: Pane<u32> = Pane::new(0, CompressionStrategy::Bc1);
    let cache = begin_dir(&mut pane, Listing::Archive("/pics/set.zip".to_string(), entries), 1,
        CompressionStrategy::Bc1).unwrap();
    let names: Vec<&str> = cache.image_paths.iter().map(|p| p.path().as_str()).collect();
    assert_eq!(names, vec!["img1.png", "img2.png", "img10.png"]);
    assert_eq!(cache.current_index, 0);
    assert!(pane.has_compressed_file && pane.dir_loaded);
    assert_eq!(pane.directory_path.as_deref(), Some("/pics/set.zip"));
}

#[test]
fn a_failed_read_keeps_the_old_cache() {
    let mut pane = pane_over(4, 2, true);
    let files = vec!["/new/x.jpg".to_string(), "/new/y.jpg".to_string()];
    let mut fresh: Pane<u32> = Pane::new(1, CompressionStrategy::Bc1);
    let cache = begin_dir(&mut fresh, Listing::Folder("/new".to_string(), files, None), 2,
        CompressionStrategy::Bc1).unwrap();
    let mut slider: u16 = 9;
    finish_dir(&mut pane, cache, false, &mut slider, &PaneLayout::SinglePane, true, false);
    assert_eq!(slider, 9);
    assert_eq!(pane.img_cache.num_files, 4);
    assert_eq!(pane.img_cache.current_index, 2);
}

#[test]
fn mouse_wheel_zoom_for_every_pane() {
    let mut panes = vec![pane_over(3, 1, true), pane_over(4, 2, false)];
    set_mouse_wheel_zoom(&mut panes, true);
    assert!(panes.iter().all(|p| p.mouse_wheel_zoom));
    assert_eq!(panes[1].img_cache.current_index, 2);
    assert!(panes[0].is_selected && !panes[1].is_selected);
    set_mouse_wheel_zoom(&mut panes, false);
    assert!(panes.iter().all(|p| !p.mouse_wheel_zoom));
}
