use dupfinder::progress::Progress;

#[test]
fn fresh_progress_is_zero() {
    let progress = Progress::new(4);
    assert_eq!(progress.completed(), 0);
    assert_eq!(progress.total(), 4);
    assert_eq!(progress.fraction(), (0, 4));
    assert!(!progress.is_complete());
}

#[test]
fn each_completion_adds_one_part_of_the_total() {
    let mut progress = Progress::new(4);
    progress.advance();
    assert_eq!(progress.fraction(), (1, 4));
    progress.advance();
    assert_eq!(progress.fraction(), (2, 4));
    progress.advance();
    assert_eq!(progress.fraction(), (3, 4));
    assert!(!progress.is_complete());
    progress.advance();
    assert_eq!(progress.fraction(), (4, 4));
    assert!(progress.is_complete());
}

#[test]
fn progress_never_goes_back_and_never_exceeds_one() {
    let mut progress = Progress::new(3);
    let mut last = 0.0f64;
    for _ in 0..10 {
        progress.advance();
        let (num, den) = progress.fraction();
        let value = num as f64 / den as f64;
        assert!(value >= last);
        assert!(value <= 1.0);
        last = value;
    }
    assert_eq!(last, 1.0);
    assert_eq!(progress.completed(), 3);
}

#[test]
fn progress_is_exactly_one_after_all_units() {
    for total in 1..50usize {
        let mut progress = Progress::new(total);
        for done in 0..total {
            assert!(!progress.is_complete());
            assert_eq!(progress.completed(), done);
            progress.advance();
        }
        assert!(progress.is_complete());
        let (num, den) = progress.fraction();
        assert_eq!(num as f32 / den as f32, 1.0f32);
    }
}

#[test]
fn progress_of_an_empty_scan_is_one() {
    let mut progress = Progress::new(0);
    assert!(progress.is_complete());
    assert_eq!(progress.fraction(), (1, 1));
    progress.advance();
    assert!(progress.is_complete());
    assert_eq!(progress.fraction(), (1, 1));
}
