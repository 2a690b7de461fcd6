use file_manager_core::images::{extension, is_image, select, select_images};

#[test]
fn extension_follows_the_last_dot() {
    assert_eq!(Some("png"), extension("ferris.png"));
    assert_eq!(Some("gz"), extension("archive.tar.gz"));
    assert_eq!(Some("PNG"), extension("FERRIS.PNG"));
    assert_eq!(Some(""), extension("ferris."));
    assert_eq!(Some("💚"), extension("a💚.💚"));
    assert_eq!(Some("b"), extension("a..b"));
}

#[test]
fn some_names_have_no_extension() {
    assert_eq!(None, extension("ferris"));
    assert_eq!(None, extension(""));
    assert_eq!(None, extension(".hidden"));
    assert_eq!(None, extension("."));
    assert_eq!(Some("png"), extension(".hidden.png"));
}

#[test]
fn extension_agrees_with_the_standard_library() {
    for name in ["ferris.png", "archive.tar.gz", "ferris", ".hidden", ".hidden.png", "a.", "a..b"] {
        let expected = std::path::Path::new(name).extension().map(|e| e.to_str().unwrap());
        assert_eq!(expected, extension(name));
    }
}

#[test]
fn images_are_known_by_their_extension() {
    assert!(is_image("ferris.png"));
    assert!(is_image("ferris.PNG"));
    assert!(is_image("ferris.jpg"));
    assert!(is_image("ferris.jpeg"));
    assert!(is_image("ferris.gif"));
    assert!(is_image("ferris.tar.bmp"));
    assert!(!is_image("ferris.txt"));
    assert!(!is_image("ferris"));
    assert!(!is_image("png"));
    assert!(!is_image(".png"));
    assert!(!is_image("ferris.png.bak"));
    assert!(!is_image(""));
}

#[test]
fn formats_without_a_decoder_are_no_images() {
    // The format is known, but it cannot be read.
    assert!(!is_image("texture.dds"));
    assert!(is_image("texture.tga"));
}

#[test]
fn select_gives_the_indices_of_what_is_set() {
    assert_eq!(vec![0, 2, 3], select(&vec![true, false, true, true, false]));
    assert_eq!(Vec::<usize>::new(), select(&vec![false, false]));
    assert_eq!(Vec::<usize>::new(), select(&Vec::new()));
    assert_eq!(vec![0], select(&vec![true]));
}

#[test]
fn images_keep_the_order_of_the_files() {
    let names: Vec<String> = ["b.png", "notes.txt", "a.jpg", "folder", "c.dds", "d.GIF"]
        .iter()
        .map(|name| name.to_string())
        .collect();
    assert_eq!(vec![0, 2, 5], select_images(&names));
    assert_eq!(Vec::<usize>::new(), select_images(&Vec::new()));
}
