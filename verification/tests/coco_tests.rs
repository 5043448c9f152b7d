use viewskater::coco::{filter_by_flags, has_coco_keys, is_coco_format};
use viewskater::rle::{decode_rle, CocoRLE};

#[test]
fn test_rle_decode() {
    // Simple 3x3 mask with center pixel set
    let rle = CocoRLE {
        size: vec![3, 3],
        counts: vec![4, 1, 4], // 4 zeros, 1 one, 4 zeros
    };

    let mask = decode_rle(&rle);
    assert_eq!(mask.len(), 9);
    assert_eq!(mask[4], 1); // Center pixel should be set
    assert_eq!(mask[0], 0);
    assert_eq!(mask[8], 0);
}

#[test]
fn test_coco_detection() {
    let valid_coco = r#"{
        "images": [],
        "annotations": [],
        "categories": []
    }"#;
    assert!(is_coco_format(valid_coco));

    let invalid = r#"{"foo": "bar"}"#;
    assert!(!is_coco_format(invalid));
}

use viewskater::coco::{
    category_color_index, get_image_filenames, resolve_annotation, validate_annotations, AnnotationRef, CocoCategory,
    CocoImage, CocoWarning,
};
use viewskater::coco_view::{
    image_dir_candidates, pick_image_dir, probe_filenames, set_all_overlays, toggle_all_bounding_boxes,
    toggle_all_segmentation_masks, toggle_bounding_boxes, toggle_segmentation_masks, OverlayVisibility,
};
use viewskater::rle::{is_boundary_pixel, mask_contours, trace_contour};

fn image(id: u64, name: &str) -> CocoImage {
    CocoImage { id, file_name: name.to_string(), width: 640, height: 480 }
}

fn category(id: u64, name: &str) -> CocoCategory {
    CocoCategory { id, name: name.to_string(), supercategory: "thing".to_string() }
}

#[test]
fn rle_decode_is_column_major_and_pads_short_runs() {
    // 2 rows, 3 columns; runs: 1 background, 2 foreground, rest missing
    let rle = CocoRLE { size: vec![2, 3], counts: vec![1, 2] };
    let mask = decode_rle(&rle);
    // column-major positions 1 and 2 are (row 1, col 0) and (row 0, col 1)
    assert_eq!(mask, vec![0, 1, 0, 1, 0, 0]);
    let bad = CocoRLE { size: vec![3], counts: vec![1] };
    assert!(decode_rle(&bad).is_empty());
}

#[test]
fn boundary_pixels() {
    let mask = vec![
        1, 1, 1, //
        1, 1, 1, //
        1, 1, 1,
    ];
    assert!(!is_boundary_pixel(&mask, 3, 3, 1, 1));
    assert!(is_boundary_pixel(&mask, 3, 3, 0, 1));
    let holed = vec![
        1, 1, 1, //
        1, 1, 0, //
        1, 1, 1,
    ];
    assert!(is_boundary_pixel(&holed, 3, 3, 1, 1));
}

#[test]
fn validation_keeps_good_annotations_and_warns() {
    let images = vec![image(1, "a.jpg")];
    let categories = vec![category(3, "cat")];
    let anns = vec![
        AnnotationRef { id: 10, image_id: 1, category_id: 3, bbox_len: 4 },
        AnnotationRef { id: 11, image_id: 2, category_id: 3, bbox_len: 4 },
        AnnotationRef { id: 12, image_id: 1, category_id: 9, bbox_len: 4 },
        AnnotationRef { id: 13, image_id: 1, category_id: 3, bbox_len: 3 },
    ];
    let (keep, warnings) = validate_annotations(&images, &categories, &anns);
    assert_eq!(keep, vec![true, false, false, false]);
    assert_eq!(
        warnings,
        vec![
            CocoWarning::MissingImage { annotation_id: 11, image_id: 2 },
            CocoWarning::MissingCategory { annotation_id: 12, category_id: 9 },
            CocoWarning::InvalidBbox { annotation_id: 13, bbox_len: 3 },
        ]
    );
    let (keep, warnings) = validate_annotations(&vec![], &vec![], &vec![]);
    assert!(keep.is_empty());
    assert_eq!(warnings, vec![CocoWarning::NoImages, CocoWarning::NoCategories]);
}

#[test]
fn annotations_resolve_to_file_and_label() {
    let images = vec![image(1, "a.jpg"), image(1, "b.jpg")];
    let categories = vec![category(3, "cat")];
    let ann = AnnotationRef { id: 10, image_id: 1, category_id: 3, bbox_len: 4 };
    assert_eq!(resolve_annotation(&images, &categories, &ann), Some(("b.jpg".to_string(), "cat".to_string())));
    let unknown_cat = AnnotationRef { id: 10, image_id: 1, category_id: 42, bbox_len: 4 };
    assert_eq!(
        resolve_annotation(&images, &categories, &unknown_cat),
        Some(("b.jpg".to_string(), "Unknown (42)".to_string()))
    );
    let unknown_image = AnnotationRef { id: 10, image_id: 5, category_id: 3, bbox_len: 4 };
    assert_eq!(resolve_annotation(&images, &categories, &unknown_image), None);
}

#[test]
fn filenames_and_probes() {
    let images = vec![image(1, "a.jpg"), image(2, "b.jpg"), image(3, "c.jpg"), image(4, "d.jpg")];
    assert_eq!(get_image_filenames(&images), vec!["a.jpg", "b.jpg", "c.jpg", "d.jpg"]);
    assert_eq!(probe_filenames(&images), vec!["a.jpg", "b.jpg", "c.jpg"]);
    assert_eq!(probe_filenames(&images[..1].to_vec()), vec!["a.jpg"]);
}

#[test]
fn category_palette_wraps() {
    assert_eq!(category_color_index(1), 1);
    assert_eq!(category_color_index(9), 9);
    assert_eq!(category_color_index(23), 3);
    assert_eq!(category_color_index(u64::MAX), 5);
}

#[test]
fn bbox_overlay_test_category_colors() {
    let color0 = category_color_index(0);
    let color1 = category_color_index(1);
    assert_ne!(color0, color1);
    let color10 = category_color_index(10);
    let color0_again = category_color_index(0);
    assert_eq!(color10, color0_again);
}

#[test]
fn image_folder_candidates_and_choice() {
    let plain = image_dir_candidates("/data", None, None);
    assert_eq!(plain, vec!["/data/images", "/data/img", "/data/val2017", "/data/train2017", "/data"]);
    let nested = image_dir_candidates("/data", Some("/data/set".to_string()), Some("/data/set/pics".to_string()));
    assert_eq!(nested[0], "/data/set/pics");
    assert_eq!(nested[1], "/data/set");
    assert_eq!(nested.len(), 7);
    let only_nested = image_dir_candidates("/data", None, Some("/data/x".to_string()));
    assert_eq!(only_nested.len(), 5);
    assert_eq!(pick_image_dir(&vec![None, Some(1), Some(2), Some(3)]), Some(2));
    assert_eq!(pick_image_dir(&vec![None, Some(0)]), None);
}

#[test]
fn overlay_toggles() {
    let mut panes = vec![
        OverlayVisibility { show_bboxes: false, show_masks: true },
        OverlayVisibility { show_bboxes: true, show_masks: true },
    ];
    toggle_bounding_boxes(&mut panes, 1);
    assert!(!panes[1].show_bboxes);
    toggle_bounding_boxes(&mut panes, 5);
    toggle_segmentation_masks(&mut panes, 0);
    assert!(!panes[0].show_masks);
    toggle_all_bounding_boxes(&mut panes);
    assert!(panes[0].show_bboxes && panes[1].show_bboxes);
    toggle_all_segmentation_masks(&mut panes);
    assert!(panes[0].show_masks && panes[1].show_masks);
    set_all_overlays(&mut panes, false);
    assert_eq!(panes[1], OverlayVisibility { show_bboxes: false, show_masks: false });
}

#[test]
fn toggling_a_pane_twice_restores_it() {
    let start = vec![
        OverlayVisibility { show_bboxes: false, show_masks: true },
        OverlayVisibility { show_bboxes: true, show_masks: false },
    ];
    let mut panes = start.clone();
    toggle_bounding_boxes(&mut panes, 0);
    toggle_segmentation_masks(&mut panes, 1);
    assert_ne!(panes, start);
    toggle_segmentation_masks(&mut panes, 1);
    toggle_bounding_boxes(&mut panes, 0);
    assert_eq!(panes, start);
}

#[test]
fn contours_of_a_square_block() {
    let mask: Vec<u8> = vec![
        0, 0, 0, 0, 0,
        0, 1, 1, 1, 0,
        0, 1, 1, 1, 0,
        0, 1, 1, 1, 0,
        0, 0, 0, 0, 0,
    ];
    assert_eq!(
        mask_contours(&mask, 5, 5),
        vec![vec![(1, 1), (2, 1), (3, 2), (3, 3), (2, 3), (1, 2)]]
    );
    assert!(mask_contours(&[], 0, 0).is_empty());
}

#[test]
fn contours_of_two_regions_and_visited_pixels() {
    let mask: Vec<u8> = vec![
        1, 1, 0, 0,
        1, 1, 0, 1,
        0, 0, 0, 1,
        0, 0, 1, 1,
    ];
    assert_eq!(
        mask_contours(&mask, 4, 4),
        vec![vec![(0, 0), (1, 0), (1, 1), (0, 1)], vec![(3, 1), (3, 2), (2, 3)]]
    );
    let mut visited = vec![false; 16];
    assert_eq!(trace_contour(&mask, 4, 4, 0, 0, &mut visited), Some(vec![(0, 0), (1, 0), (1, 1), (0, 1)]));
    let marked: Vec<usize> = (0..16).filter(|&i| visited[i]).collect();
    assert_eq!(marked, vec![0, 1, 4, 5]);
    let inner: Vec<u8> = vec![1; 9];
    let mut seen = vec![false; 9];
    assert_eq!(trace_contour(&inner, 3, 3, 1, 1, &mut seen), None);
    assert!(seen[4]);
}

#[test]
fn warning_messages() {
    assert_eq!(CocoWarning::NoImages.message(), "COCO dataset has no images");
    assert_eq!(CocoWarning::NoCategories.message(), "COCO dataset has no categories");
    assert_eq!(
        CocoWarning::MissingImage { annotation_id: 11, image_id: 2 }.message(),
        "Skipping annotation 11: references non-existent image_id 2"
    );
    assert_eq!(
        CocoWarning::MissingCategory { annotation_id: 12, category_id: 90 }.message(),
        "Skipping annotation 12: references non-existent category_id 90"
    );
    assert_eq!(
        CocoWarning::InvalidBbox { annotation_id: 13, bbox_len: 3 }.message(),
        "Skipping annotation 13: invalid bbox format (expected 4 values, got 3)"
    );
}

#[test]
fn test_coco_parsing() {
    let coco_json = r#"{
        "images": [
            {"id": 1, "file_name": "test.jpg", "width": 640, "height": 480}
        ],
        "annotations": [
            {
                "id": 1,
                "image_id": 1,
                "category_id": 1,
                "bbox": [10.0, 20.0, 100.0, 200.0],
                "area": 20000.0,
                "iscrowd": 0
            }
        ],
        "categories": [
            {"id": 1, "name": "person", "supercategory": "human"}
        ]
    }"#;
    assert!(is_coco_format(coco_json));
    let value: serde_json::Value = serde_json::from_str(coco_json).unwrap();
    let images: Vec<CocoImage> = value["images"]
        .as_array()
        .unwrap()
        .iter()
        .map(|i| CocoImage {
            id: i["id"].as_u64().unwrap(),
            file_name: i["file_name"].as_str().unwrap().to_string(),
            width: i["width"].as_u64().unwrap() as u32,
            height: i["height"].as_u64().unwrap() as u32,
        })
        .collect();
    let categories: Vec<CocoCategory> = value["categories"]
        .as_array()
        .unwrap()
        .iter()
        .map(|c| CocoCategory {
            id: c["id"].as_u64().unwrap(),
            name: c["name"].as_str().unwrap().to_string(),
            supercategory: c["supercategory"].as_str().unwrap().to_string(),
        })
        .collect();
    let annotations: Vec<AnnotationRef> = value["annotations"]
        .as_array()
        .unwrap()
        .iter()
        .map(|a| AnnotationRef {
            id: a["id"].as_u64().unwrap(),
            image_id: a["image_id"].as_u64().unwrap(),
            category_id: a["category_id"].as_u64().unwrap(),
            bbox_len: a["bbox"].as_array().unwrap().len(),
        })
        .collect();
    let (keep, _warnings) = validate_annotations(&images, &categories, &annotations);
    let (kept, skipped_count) = filter_by_flags(annotations, &keep);
    assert_eq!(skipped_count, 0);
    assert_eq!(images.len(), 1);
    assert_eq!(kept.len(), 1);
    assert_eq!(categories.len(), 1);
}

#[test]
fn keys_of_a_coco_dataset() {
    let keys = |ks: &[&str]| ks.iter().map(|k| k.to_string()).collect::<Vec<String>>();
    assert!(has_coco_keys(&keys(&["info", "images", "categories", "annotations"])));
    assert!(!has_coco_keys(&keys(&["images", "annotations"])));
    assert!(!has_coco_keys(&keys(&[])));
}

#[test]
fn filtering_by_flags_keeps_order() {
    let (kept, dropped) = filter_by_flags(vec!["a", "b", "c", "d", "e"], &vec![true, false, true, false, true]);
    assert_eq!(kept, vec!["a", "c", "e"]);
    assert_eq!(dropped, 2);
    let (kept, dropped) = filter_by_flags(Vec::<u8>::new(), &vec![]);
    assert!(kept.is_empty());
    assert_eq!(dropped, 0);
}

#[test]
fn contours_lie_on_the_foreground() {
    let (w, h) = (5usize, 4usize);
    assert!(mask_contours(&vec![0u8; w * h], w, h).is_empty());
    let mask = vec![
        0, 0, 0, 0, 0, //
        0, 1, 1, 1, 0, //
        0, 1, 1, 1, 0, //
        0, 0, 0, 0, 0,
    ];
    let contours = mask_contours(&mask, w, h);
    assert!(!contours.is_empty());
    for c in &contours {
        assert!(c.len() >= 3);
        for &(x, y) in c {
            assert!(x < w && y < h && mask[y * w + x] > 0);
        }
    }
}

#[test]
fn dropped_annotations_each_get_one_warning() {
    let images = vec![image(1, "a.jpg"), image(2, "b.jpg")];
    let categories = vec![category(1, "cat")];
    let anns = vec![
        AnnotationRef { id: 1, image_id: 5, category_id: 7, bbox_len: 0 },
        AnnotationRef { id: 2, image_id: 2, category_id: 1, bbox_len: 4 },
        AnnotationRef { id: 3, image_id: 1, category_id: 7, bbox_len: 4 },
    ];
    let (keep, warnings) = validate_annotations(&images, &categories, &anns);
    let skipped = keep.iter().filter(|k| !**k).count();
    assert_eq!(skipped, 2);
    assert_eq!(warnings.len(), skipped);
}
