use viewskater::annotations::{
    build_image_annotation_map, first_filenames, manager_dir_candidates, verification_filenames, AnnotationManager,
    MANAGER_PROBE_COUNT,
};
use viewskater::coco::{AnnotationRef, CocoCategory, CocoImage};

fn image(id: u64, name: &str) -> CocoImage {
    CocoImage { id, file_name: name.to_string(), width: 640, height: 480 }
}

fn category(id: u64, name: &str) -> CocoCategory {
    CocoCategory { id, name: name.to_string(), supercategory: String::new() }
}

fn ann(id: u64, image_id: u64, category_id: u64) -> AnnotationRef {
    AnnotationRef { id, image_id, category_id, bbox_len: 4 }
}

#[test]
fn test_annotation_manager_creation() {
    let manager = AnnotationManager::new();
    assert!(!manager.has_annotations());
    assert!(manager.get_annotations("test.jpg").is_none());
}

#[test]
fn annotations_are_grouped_by_file() {
    let images = vec![image(1, "a.jpg"), image(2, "b.jpg"), image(2, "c.jpg")];
    let categories = vec![category(1, "person")];
    let anns = vec![ann(10, 1, 1), ann(11, 2, 1), ann(12, 9, 1), ann(13, 1, 7)];
    let map = build_image_annotation_map(&images, &categories, &anns);
    assert_eq!(map.len(), 2);
    assert_eq!(map[0].0, "a.jpg");
    let a: Vec<(usize, u64, String)> =
        map[0].1.iter().map(|e| (e.annotation_index, e.category_id, e.category_name.clone())).collect();
    assert_eq!(a, vec![(0, 1, "person".to_string()), (3, 7, "Unknown (7)".to_string())]);
    // a later image with the same id wins
    assert_eq!(map[1].0, "c.jpg");
    assert_eq!(map[1].1.len(), 1);
    assert_eq!(map[1].1[0].annotation_index, 1);
}

#[test]
fn manager_takes_a_folder_with_images() {
    let images = vec![image(1, "a.jpg"), image(2, "b.jpg")];
    let categories = vec![category(1, "person")];
    let anns = vec![ann(10, 1, 1), ann(11, 1, 1)];
    let mut manager = AnnotationManager::new();
    let refused = manager.set_image_directory(images.clone(), categories.clone(), anns.clone(),
        "/data/ann.json".to_string(), "/data/empty".to_string(), 0);
    assert_eq!(refused, Err("No images from the COCO dataset found in directory: /data/empty".to_string()));
    assert!(!manager.has_annotations());
    manager.set_image_directory(images, categories, anns, "/data/ann.json".to_string(), "/data/images".to_string(), 2)
        .unwrap();
    assert!(manager.has_annotations());
    assert_eq!(manager.get_image_directory().map(|s| s.as_str()), Some("/data/images"));
    assert_eq!(manager.get_json_path().map(|s| s.as_str()), Some("/data/ann.json"));
    assert_eq!(manager.get_annotations("a.jpg").map(|v| v.len()), Some(2));
    assert!(manager.get_annotations("b.jpg").is_none());
    let stats = manager.get_stats().unwrap();
    assert_eq!((stats.num_images, stats.num_annotations, stats.num_categories), (2, 2, 1));
    manager.clear();
    assert!(!manager.has_annotations());
    assert!(manager.get_json_path().is_none());
    assert!(manager.get_stats().is_none());
}

#[test]
fn verification_names_are_the_first_twenty() {
    let images: Vec<CocoImage> = (0..25).map(|i| image(i, &format!("{}.jpg", i))).collect();
    let names = verification_filenames(&images);
    assert_eq!(names.len(), 20);
    assert_eq!(names[19], "19.jpg");
    assert_eq!(verification_filenames(&images[..3].to_vec()).len(), 3);
}

#[test]
fn manager_candidate_folders() {
    let c = manager_dir_candidates("/data/set");
    assert_eq!(c, vec![
        "/data/set".to_string(),
        "/data/set/images".to_string(),
        "/data/set/img".to_string(),
        "/data/set/data".to_string(),
        "/data/set/train".to_string(),
        "/data/set/val".to_string(),
        "/data/set/test".to_string(),
    ]);
    let images: Vec<CocoImage> = (0..8).map(|i| image(i, &format!("{}.png", i))).collect();
    let names = first_filenames(&images, MANAGER_PROBE_COUNT);
    assert_eq!(names, vec!["0.png", "1.png", "2.png", "3.png", "4.png"]);
    assert!(first_filenames(&images, 0).is_empty());
}
