use dupfinder::buckets::HashBuckets;
use dupfinder::extract::extract;
use dupfinder::fingerprint::Fingerprint;

fn filled(records: &[(u64, &str)]) -> HashBuckets {
    let mut buckets = HashBuckets::new();
    for (bits, path) in records {
        buckets.record(Fingerprint { bits: *bits }, path.to_string());
    }
    buckets
}

fn names(groups: &[&[&str]]) -> Vec<Vec<String>> {
    groups.iter().map(|g| g.iter().map(|p| p.to_string()).collect()).collect()
}

#[test]
fn no_buckets_no_groups() {
    assert!(extract(&HashBuckets::new()).is_empty());
}

#[test]
fn a_bucket_of_one_is_no_group() {
    let buckets = filled(&[(1, "a.png"), (2, "b.png"), (3, "c.png")]);
    assert!(extract(&buckets).is_empty());
}

#[test]
fn a_bucket_of_two_is_a_group_with_both_members() {
    let buckets = filled(&[(1, "b.png"), (2, "x.png"), (1, "a.png")]);
    assert_eq!(extract(&buckets), names(&[&["a.png", "b.png"]]));
}

#[test]
fn a_group_holds_every_member_of_its_bucket() {
    let buckets = filled(&[(5, "d"), (5, "b"), (5, "a"), (5, "c"), (6, "e")]);
    assert_eq!(extract(&buckets), names(&[&["a", "b", "c", "d"]]));
}

#[test]
fn groups_come_in_the_order_of_their_smallest_members() {
    let buckets = filled(&[
        (1, "pics/z.png"),
        (2, "pics/m.png"),
        (3, "pics/c.png"),
        (1, "pics/y.png"),
        (2, "pics/a.png"),
        (3, "pics/b.png"),
        (4, "pics/alone.png"),
    ]);
    assert_eq!(
        extract(&buckets),
        names(&[
            &["pics/a.png", "pics/m.png"],
            &["pics/b.png", "pics/c.png"],
            &["pics/y.png", "pics/z.png"],
        ])
    );
}

#[test]
fn the_order_of_arrival_does_not_matter() {
    let one = filled(&[(1, "a"), (2, "b"), (1, "c"), (2, "d"), (3, "e"), (1, "f")]);
    let other = filled(&[(3, "e"), (2, "d"), (1, "f"), (1, "c"), (2, "b"), (1, "a")]);
    assert_eq!(extract(&one), extract(&other));
    assert_eq!(extract(&one), names(&[&["a", "c", "f"], &["b", "d"]]));
}

#[test]
fn extracting_twice_gives_the_same_groups() {
    let buckets = filled(&[(9, "k"), (9, "j"), (8, "i"), (8, "h"), (7, "g")]);
    let first = extract(&buckets);
    let second = extract(&buckets);
    assert_eq!(first, second);
    assert_eq!(first, names(&[&["h", "i"], &["j", "k"]]));
}
