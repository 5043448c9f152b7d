use viewskater::archive::{archive_type_of, sort_archive_paths, ArchiveType};
use viewskater::file_io::{convert_file_paths_to_image_paths, get_file_index, get_filename, has_image_extension, ImageError};
use viewskater::img_cache::PathSource;

#[test]
fn file_names_of_paths() {
    assert_eq!(get_filename("/home/user/pictures/cat.png"), Some("cat.png".to_string()));
    assert_eq!(get_filename("relative/dog.JPG"), Some("dog.JPG".to_string()));
    assert_eq!(get_filename("/"), None);
    assert_eq!(get_filename("a/.."), None);
}

#[test]
fn file_index_matches_by_name() {
    let files = vec!["/d/a.png".to_string(), "/d/b.png".to_string(), "/d/c.png".to_string()];
    assert_eq!(get_file_index(&files, &"/elsewhere/b.png".to_string()), Some(1));
    assert_eq!(get_file_index(&files, &"/d/z.png".to_string()), None);
    assert_eq!(get_file_index(&files, &"/".to_string()), None);
}

#[test]
fn image_extensions_in_any_case() {
    assert!(has_image_extension("photo.JPG"));
    assert!(has_image_extension("/x/y/scan.Tiff"));
    assert!(has_image_extension("a.qoi"));
    assert!(!has_image_extension("notes.txt"));
    assert!(!has_image_extension("README"));
    assert!(!has_image_extension("archive.zip"));
}

#[test]
fn image_paths_are_filtered_and_sorted() {
    let files = vec![
        "/d/img10.png".to_string(),
        "/d/readme.md".to_string(),
        "/d/img2.png".to_string(),
        "/d/img1.jpg".to_string(),
    ];
    let sorted = convert_file_paths_to_image_paths(files).unwrap();
    assert_eq!(sorted, vec!["/d/img1.jpg".to_string(), "/d/img2.png".to_string(), "/d/img10.png".to_string()]);
    let none = convert_file_paths_to_image_paths(vec!["/d/a.txt".to_string()]);
    assert!(matches!(none, Err(ImageError::NoImagesFound)));
}

#[test]
fn archive_kinds_by_extension() {
    assert_eq!(archive_type_of("/comics/issue.ZIP"), Some(ArchiveType::Zip));
    assert_eq!(archive_type_of("set.rar"), Some(ArchiveType::Rar));
    assert_eq!(archive_type_of("set.7Z"), Some(ArchiveType::SevenZ));
    assert_eq!(archive_type_of("set.tar"), None);
    assert_eq!(archive_type_of("zip"), None);
}

#[test]
fn archive_entries_sort_naturally() {
    let entries = vec![
        PathSource::Archive("pages/page10.png".to_string()),
        PathSource::Archive("pages/page9.png".to_string()),
        PathSource::Preloaded("pages/page1.png".to_string()),
    ];
    let sorted = sort_archive_paths(&entries);
    let names: Vec<String> = sorted.iter().map(|p| p.file_name()).collect();
    assert_eq!(names, vec!["pages/page1.png", "pages/page9.png", "pages/page10.png"]);
}
