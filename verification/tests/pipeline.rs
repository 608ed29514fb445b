use dupfinder::extract::extract;
use dupfinder::failure::FailureKind;
use dupfinder::fingerprint::Fingerprint;
use dupfinder::pipeline::{compute_image_hash, find_duplicates, Scan, ScanUnit};
use dupfinder::walker::{scan_directory, visit, Entry};
use image::{DynamicImage, GrayImage};

/// A 9 x 8 image whose fingerprint is `pattern`.
fn picture(pattern: u64) -> DynamicImage {
    let mut pixels = Vec::new();
    for row in 0..8u32 {
        let mut value: u8 = 128;
        pixels.push(value);
        for col in 0..8u32 {
            let i = row * 8 + col;
            if (pattern >> (63 - i)) & 1 == 1 {
                value += 1;
            } else {
                value -= 1;
            }
            pixels.push(value);
        }
    }
    DynamicImage::ImageLuma8(GrayImage::from_raw(9, 8, pixels).unwrap())
}

fn unit(path: &str, pattern: u64) -> ScanUnit {
    ScanUnit { path: path.to_string(), decoded: Ok(picture(pattern)) }
}

fn broken(path: &str, reason: &str) -> ScanUnit {
    ScanUnit { path: path.to_string(), decoded: Err(reason.to_string()) }
}

#[test]
fn a_decoded_image_gives_its_fingerprint() {
    assert_eq!(compute_image_hash(&Ok(picture(0xABCD))), Ok(Fingerprint { bits: 0xABCD }));
}

#[test]
fn a_decode_failure_is_passed_on_with_its_reason() {
    assert_eq!(
        compute_image_hash(&Err("Error decoding image: x.png".to_string())),
        Err((FailureKind::DecodeFailure, "Error decoding image: x.png".to_string()))
    );
}

#[test]
fn unusable_pixel_data_is_a_fingerprint_failure() {
    assert_eq!(
        compute_image_hash(&Ok(DynamicImage::new_luma8(0, 0))),
        Err((FailureKind::FingerprintFailure, "image has no pixels".to_string()))
    );
    assert_eq!(
        compute_image_hash(&Ok(DynamicImage::new_rgba8(3, 0))),
        Err((FailureKind::FingerprintFailure, "image has no pixels".to_string()))
    );
}

#[test]
fn two_copies_and_a_text_file_give_one_group() {
    let listing = vec![
        Entry { path: "dir/a.png".to_string(), is_dir: false },
        Entry { path: "dir/b.png".to_string(), is_dir: false },
        Entry { path: "dir/c.txt".to_string(), is_dir: false },
    ];
    let level = scan_directory(&listing);
    assert_eq!(level.images, vec!["dir/a.png", "dir/b.png"]);
    let units: Vec<ScanUnit> =
        level.images.iter().map(|path| unit(path, 0x0F0F_0F0F_0F0F_0F0F)).collect();
    let report = find_duplicates(&units);
    assert!(report.failures.is_empty());
    assert!(report.progress.is_complete());
    assert_eq!(
        extract(&report.buckets),
        vec![vec!["dir/a.png".to_string(), "dir/b.png".to_string()]]
    );
}

#[test]
fn the_same_pixels_under_other_names_are_duplicates() {
    let units = vec![unit("x/holiday.jpg", 77), unit("y/IMG_0001.PNG", 77), unit("z/other.bmp", 78)];
    let report = find_duplicates(&units);
    assert_eq!(
        extract(&report.buckets),
        vec![vec!["x/holiday.jpg".to_string(), "y/IMG_0001.PNG".to_string()]]
    );
}

#[test]
fn a_hundred_unique_images_and_one_pair() {
    let mut paths = Vec::new();
    for i in 0..100u64 {
        paths.push(format!("unique{:03}.png", i));
    }
    paths.push("twin-a.png".to_string());
    paths.push("twin-b.png".to_string());
    let mut scan = Scan::new(paths, 4);
    let mut completions = 0;
    let mut out = Vec::new();
    loop {
        while let Some(path) = scan.next_unit() {
            out.push(path);
        }
        assert!(scan.units_in_flight() <= 4);
        match out.pop() {
            Some(path) => {
                let pattern = if path.starts_with("twin") {
                    1000
                } else {
                    path[6..9].parse::<u64>().unwrap()
                };
                assert!(!scan.is_finished());
                let before = scan.progress_snapshot().fraction();
                assert!(scan.complete(path, &Ok(picture(pattern))));
                completions += 1;
                let after = scan.progress_snapshot().fraction();
                assert_eq!(after, (before.0 + 1, 102));
            },
            None => break,
        }
    }
    assert_eq!(completions, 102);
    assert!(scan.is_finished());
    assert_eq!(scan.progress_snapshot().fraction(), (102, 102));
    let report = scan.finish().unwrap();
    assert!(report.failures.is_empty());
    assert_eq!(report.buckets.len(), 101);
    let groups = extract(&report.buckets);
    assert_eq!(groups, vec![vec!["twin-a.png".to_string(), "twin-b.png".to_string()]]);
}

#[test]
fn a_scan_of_nothing_is_finished_at_once() {
    let mut scan = Scan::new(Vec::new(), 4);
    assert_eq!(scan.next_unit(), None);
    assert!(scan.is_finished());
    assert_eq!(scan.progress_snapshot().fraction(), (1, 1));
    let report = scan.finish().unwrap();
    assert_eq!(report.buckets.len(), 0);
    assert!(report.failures.is_empty());

    let report = find_duplicates(&Vec::new());
    assert!(report.progress.is_complete());
    assert!(extract(&report.buckets).is_empty());
}

#[test]
fn there_is_no_report_while_work_is_outstanding() {
    let mut scan = Scan::new(vec!["a.png".to_string(), "b.png".to_string()], 2);
    let first = scan.next_unit().unwrap();
    let second = scan.next_unit().unwrap();
    assert_eq!(first, "a.png");
    assert!(scan.complete(first, &Ok(picture(1))));
    assert!(!scan.is_finished());
    assert_eq!(scan.units_in_flight(), 1);
    assert_eq!(second, "b.png");
    assert!(scan.finish().is_none());
}

#[test]
fn the_pool_bounds_the_units_in_flight() {
    let paths: Vec<String> = (0..5).map(|i| format!("pic{}.png", i)).collect();
    let mut scan = Scan::new(paths, 2);
    let a = scan.next_unit().unwrap();
    let _b = scan.next_unit().unwrap();
    assert_eq!(scan.next_unit(), None);
    assert_eq!(scan.units_in_flight(), 2);
    assert!(scan.complete(a, &Ok(picture(3))));
    assert_eq!(scan.units_in_flight(), 1);
    assert_eq!(scan.next_unit(), Some("pic2.png".to_string()));
    assert_eq!(scan.next_unit(), None);
}

#[test]
fn a_failed_file_is_recorded_and_left_out_of_the_buckets() {
    let units = vec![
        unit("a.png", 5),
        broken("b.png", "Error decoding image: b.png"),
        unit("c.png", 5),
        ScanUnit { path: "d.png".to_string(), decoded: Ok(DynamicImage::new_luma8(0, 2)) },
        broken("e.png", "Error opening file: e.png"),
    ];
    let report = find_duplicates(&units);
    assert!(report.progress.is_complete());
    assert_eq!(report.progress.fraction(), (5, 5));
    assert_eq!(report.failures.len(), 3);
    assert_eq!(report.failures[0].kind, FailureKind::DecodeFailure);
    assert_eq!(report.failures[0].path, "b.png");
    assert_eq!(report.failures[0].reason, "Error decoding image: b.png");
    assert_eq!(report.failures[1].kind, FailureKind::FingerprintFailure);
    assert_eq!(report.failures[1].path, "d.png");
    assert_eq!(report.failures[1].reason, "image has no pixels");
    assert_eq!(report.failures[2].kind, FailureKind::DecodeFailure);
    assert_eq!(report.failures[2].path, "e.png");
    assert_eq!(extract(&report.buckets), vec![vec!["a.png".to_string(), "c.png".to_string()]]);
}

#[test]
fn the_buckets_hold_the_accepted_files_less_the_failed_ones() {
    let mut listing = Vec::new();
    for i in 0..40 {
        let ext = ["png", "txt", "JPG", "gif", "doc"][i % 5];
        listing.push(Entry { path: format!("d/f{:02}.{}", i, ext), is_dir: i % 11 == 10 });
    }
    let level = scan_directory(&listing);
    let mut units = Vec::new();
    for (i, path) in level.images.iter().enumerate() {
        if i % 4 == 3 {
            units.push(broken(path, "cannot decode"));
        } else {
            units.push(unit(path, (i % 6) as u64));
        }
    }
    let report = find_duplicates(&units);
    let mut in_buckets = Vec::new();
    for b in 0..report.buckets.len() {
        in_buckets.extend(report.buckets.paths_at(b).iter().cloned());
    }
    in_buckets.sort();
    let failed: Vec<String> = report.failures.iter().map(|f| f.path.clone()).collect();
    let mut expected: Vec<String> =
        level.images.iter().filter(|p| !failed.contains(p)).cloned().collect();
    expected.sort();
    assert_eq!(in_buckets, expected);
    assert_eq!(in_buckets.len() + failed.len(), level.images.len());
    for entry in &listing {
        let accepted = !entry.is_dir
            && (entry.path.ends_with(".png") || entry.path.ends_with(".JPG") || entry.path.ends_with(".gif"));
        assert_eq!(level.images.contains(&entry.path), accepted);
    }
}

#[test]
fn running_twice_gives_the_same_groups() {
    let forward: Vec<ScanUnit> =
        (0..30u64).map(|i| unit(&format!("img{:02}.png", i), i % 7)).collect();
    let backward: Vec<ScanUnit> =
        (0..30u64).rev().map(|i| unit(&format!("img{:02}.png", i), i % 7)).collect();
    let first = extract(&find_duplicates(&forward).buckets);
    let again = extract(&find_duplicates(&forward).buckets);
    let reversed = extract(&find_duplicates(&backward).buckets);
    assert_eq!(first, again);
    assert_eq!(first, reversed);
    assert_eq!(first.len(), 7);
    assert_eq!(first[0][0], "img00.png");
    assert_eq!(first[0], vec!["img00.png", "img07.png", "img14.png", "img21.png", "img28.png"]);
}

#[test]
fn a_scan_takes_over_from_a_finished_walk() {
    let mut walker = visit("root".to_string());
    while let Some(directory) = walker.next_directory() {
        let accepted = match directory.as_str() {
            "root" => walker.directory_listed(
                &directory,
                &vec![
                    Entry { path: "root/a.png".to_string(), is_dir: false },
                    Entry { path: "root/locked".to_string(), is_dir: true },
                    Entry { path: "root/b.png".to_string(), is_dir: false },
                    Entry { path: "root/notes.txt".to_string(), is_dir: false },
                ],
            ),
            _ => walker.directory_failed(directory, "Permission denied".to_string()),
        };
        assert!(accepted);
    }
    let mut scan = match Scan::after_walk(walker, 2) {
        Ok(scan) => scan,
        Err(_) => panic!("the walk is over"),
    };
    assert_eq!(scan.progress_snapshot().fraction(), (0, 2));
    let first = scan.next_unit().unwrap();
    let second = scan.next_unit().unwrap();
    assert_eq!((first.as_str(), second.as_str()), ("root/a.png", "root/b.png"));
    assert_eq!(scan.next_unit(), None);
    assert!(scan.complete(second, &Ok(picture(11))));
    assert!(scan.complete(first, &Err("Error decoding image: root/a.png".to_string())));
    let report = scan.finish().unwrap();
    assert_eq!(report.failures.len(), 2);
    assert_eq!(report.failures[0].kind, FailureKind::DirectoryUnreadable);
    assert_eq!(report.failures[0].path, "root/locked");
    assert_eq!(report.failures[1].kind, FailureKind::DecodeFailure);
    assert_eq!(report.failures[1].path, "root/a.png");
    assert_eq!(report.buckets.len(), 1);
    assert!(extract(&report.buckets).is_empty());
}

#[test]
fn a_walk_that_is_not_over_is_handed_back() {
    let mut walker = visit("root".to_string());
    let root = walker.next_directory().unwrap();
    let mut walker = match Scan::after_walk(walker, 2) {
        Ok(_) => panic!("the root is still out"),
        Err(walker) => walker,
    };
    assert_eq!(walker.directories_in_flight(), 1);
    assert!(walker.directory_failed(root, "gone".to_string()));
    assert!(Scan::after_walk(walker, 2).is_ok());
}

#[test]
fn a_worker_may_report_the_outcome_it_computed() {
    let mut scan = Scan::new(vec!["a.png".to_string(), "b.png".to_string(), "c.png".to_string()], 3);
    let a = scan.next_unit().unwrap();
    let b = scan.next_unit().unwrap();
    let c = scan.next_unit().unwrap();
    assert!(scan.merge(c, Ok(Fingerprint { bits: 9 })));
    assert!(scan.merge(b, Err((FailureKind::DecodeFailure, "Error opening file: b.png".to_string()))));
    assert!(scan.merge(a, compute_image_hash(&Ok(picture(9)))));
    assert_eq!(scan.progress_snapshot().fraction(), (3, 3));
    let report = scan.finish().unwrap();
    assert_eq!(report.failures.len(), 1);
    assert_eq!(report.failures[0].path, "b.png");
    assert_eq!(report.failures[0].reason, "Error opening file: b.png");
    assert_eq!(extract(&report.buckets), vec![vec!["a.png".to_string(), "c.png".to_string()]]);
}

#[test]
fn a_report_on_a_path_that_is_not_out_is_refused() {
    let mut scan = Scan::new(vec!["a.png".to_string(), "b.png".to_string()], 2);
    // Nothing has gone out yet.
    assert!(!scan.merge("a.png".to_string(), Ok(Fingerprint { bits: 1 })));
    assert_eq!(scan.progress_snapshot().fraction(), (0, 2));
    let a = scan.next_unit().unwrap();
    assert!(!scan.merge("b.png".to_string(), Ok(Fingerprint { bits: 1 })));
    assert!(!scan.complete("stranger.png".to_string(), &Ok(picture(1))));
    assert!(scan.merge(a.clone(), Ok(Fingerprint { bits: 1 })));
    // A second report on the same path comes too late.
    assert!(!scan.merge(a, Ok(Fingerprint { bits: 1 })));
    assert_eq!(scan.progress_snapshot().fraction(), (1, 2));
    let b = scan.next_unit().unwrap();
    assert!(scan.merge(b, Ok(Fingerprint { bits: 1 })));
    let report = scan.finish().unwrap();
    assert_eq!(extract(&report.buckets), vec![vec!["a.png".to_string(), "b.png".to_string()]]);
}

#[test]
fn a_path_submitted_twice_is_recorded_twice() {
    let mut scan = Scan::new(vec!["a.png".to_string(), "a.png".to_string()], 2);
    let first = scan.next_unit().unwrap();
    let second = scan.next_unit().unwrap();
    assert_eq!(scan.units_in_flight(), 2);
    assert!(scan.merge(first, Ok(Fingerprint { bits: 4 })));
    assert_eq!(scan.units_in_flight(), 1);
    assert!(scan.merge(second, Ok(Fingerprint { bits: 4 })));
    let report = scan.finish().unwrap();
    assert_eq!(extract(&report.buckets), vec![vec!["a.png".to_string(), "a.png".to_string()]]);
}
