use fifteen_puzzle::gallery::{
    chosen_path, get_random_image_path, image_indices, is_image_extension, is_image_format, FileEntry,
    PickError,
};

fn entry(path: &str, extension: Option<&str>) -> FileEntry {
    FileEntry { path: Some(path.to_string()), extension: extension.map(|e| e.to_string()) }
}

fn nameless(extension: &str) -> FileEntry {
    FileEntry { path: None, extension: Some(extension.to_string()) }
}

#[test]
fn picture_extensions_in_lower_case() {
    assert!(is_image_extension("png"));
    assert!(is_image_extension("jpg"));
    assert!(is_image_extension("jpeg"));
    assert!(is_image_extension("bmp"));
}

#[test]
fn picture_extensions_in_any_case() {
    assert!(is_image_extension("PNG"));
    assert!(is_image_extension("Jpg"));
    assert!(is_image_extension("jPeG"));
    assert!(is_image_extension("BMP"));
    assert!(is_image_extension("bMp"));
}

#[test]
fn other_extensions_are_no_pictures() {
    assert!(!is_image_extension(""));
    assert!(!is_image_extension("gif"));
    assert!(!is_image_extension("txt"));
    assert!(!is_image_extension("pngx"));
    assert!(!is_image_extension("pn"));
    assert!(!is_image_extension(".png"));
    assert!(!is_image_extension("png "));
    assert!(!is_image_extension("jpe"));
    assert!(!is_image_extension("tiff"));
}

#[test]
fn format_names_are_matched_letter_for_letter() {
    assert!(is_image_format(&"png".to_string()));
    assert!(is_image_format(&"jpg".to_string()));
    assert!(is_image_format(&"jpeg".to_string()));
    assert!(is_image_format(&"bmp".to_string()));
    assert!(!is_image_format(&"PNG".to_string()));
    assert!(!is_image_format(&"Jpeg".to_string()));
    assert!(!is_image_format(&"".to_string()));
    assert!(!is_image_format(&"webp".to_string()));
}

#[test]
fn image_indices_lists_the_pictures_in_order() {
    let entries = vec![
        entry("images/readme.txt", Some("txt")),
        entry("images/cat.PNG", Some("PNG")),
        entry("images/Makefile", None),
        entry("images/dog.jpeg", Some("jpeg")),
        nameless("bmp"),
        entry("images/notes.md", Some("md")),
        entry("images/owl.Jpg", Some("Jpg")),
    ];
    assert_eq!(image_indices(&entries), vec![1, 3, 4, 6]);
    assert_eq!(image_indices(&Vec::new()), Vec::<usize>::new());
}

#[test]
fn chosen_path_of_each_draw() {
    assert_eq!(chosen_path(None), Err(PickError::NothingChosen));
    assert_eq!(chosen_path(Some(&nameless("png"))), Err(PickError::InvalidUtf8));
    assert_eq!(
        chosen_path(Some(&entry("images/cat.png", Some("png")))),
        Ok("images/cat.png".to_string())
    );
}

#[test]
fn directory_without_pictures_is_refused() {
    assert_eq!(get_random_image_path(&Vec::new()), Err(PickError::NoImages));
    let entries = vec![
        entry("images/readme.txt", Some("txt")),
        entry("images/Makefile", None),
        entry("images/png", None),
    ];
    assert_eq!(get_random_image_path(&entries), Err(PickError::NoImages));
}

#[test]
fn the_only_picture_is_picked() {
    let entries = vec![
        entry("images/readme.txt", Some("txt")),
        entry("images/cat.BMP", Some("BMP")),
        entry("images/Makefile", None),
    ];
    for _ in 0..20 {
        assert_eq!(get_random_image_path(&entries), Ok("images/cat.BMP".to_string()));
    }
}

#[test]
fn one_of_the_pictures_is_picked() {
    let entries = vec![
        entry("images/a.png", Some("png")),
        entry("images/b.txt", Some("txt")),
        entry("images/c.jpg", Some("jpg")),
        entry("images/d.jpeg", Some("jpeg")),
    ];
    let mut seen = Vec::new();
    for _ in 0..400 {
        let path = get_random_image_path(&entries).unwrap();
        assert!(path == "images/a.png" || path == "images/c.jpg" || path == "images/d.jpeg");
        if !seen.contains(&path) {
            seen.push(path);
        }
    }
    assert_eq!(seen.len(), 3);
}

#[test]
fn picture_with_a_path_that_is_no_text_is_refused() {
    let entries = vec![entry("images/readme.txt", Some("txt")), nameless("png")];
    for _ in 0..20 {
        assert_eq!(get_random_image_path(&entries), Err(PickError::InvalidUtf8));
    }
}
