use dupfinder::classifier::is_image_file;

#[test]
fn accepts_every_supported_extension() {
    assert!(is_image_file("a.jpg"));
    assert!(is_image_file("a.jpeg"));
    assert!(is_image_file("a.png"));
    assert!(is_image_file("a.bmp"));
    assert!(is_image_file("a.gif"));
    assert!(is_image_file("a.tiff"));
}

#[test]
fn extension_case_is_ignored() {
    assert!(is_image_file("A.PNG"));
    assert!(is_image_file("holiday.JpEg"));
    assert!(is_image_file("scan.Tiff"));
}

#[test]
fn rejects_other_extensions() {
    assert!(!is_image_file("c.txt"));
    assert!(!is_image_file("d.webp"));
    assert!(!is_image_file("e.pngx"));
    assert!(!is_image_file("f.pn"));
    assert!(!is_image_file("g.tif"));
    assert!(!is_image_file("a.png.txt"));
}

#[test]
fn rejects_paths_without_extension() {
    assert!(!is_image_file(""));
    assert!(!is_image_file("README"));
    assert!(!is_image_file("photos/README"));
    assert!(!is_image_file("a."));
    assert!(!is_image_file("png"));
}

#[test]
fn a_dot_in_a_directory_name_is_no_extension() {
    assert!(!is_image_file("album.png/notes"));
    assert!(!is_image_file("album.png/"));
    assert!(is_image_file("album.v2/cover.png"));
}

#[test]
fn a_leading_dot_starts_a_hidden_name_not_an_extension() {
    assert!(!is_image_file(".png"));
    assert!(!is_image_file("photos/.gif"));
    assert!(is_image_file("photos/.hidden.gif"));
}

#[test]
fn only_the_last_extension_counts() {
    assert!(is_image_file("archive.tar.png"));
    assert!(is_image_file("/var/data/x.y.z.bmp"));
}

#[test]
fn letters_outside_ascii_are_left_alone() {
    assert!(is_image_file("été.png"));
    assert!(!is_image_file("a.pñg"));
    assert!(!is_image_file("a.gİf"));
}
