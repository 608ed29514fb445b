use dupfinder::buckets::HashBuckets;
use dupfinder::fingerprint::Fingerprint;

fn fp(bits: u64) -> Fingerprint {
    Fingerprint { bits }
}

#[test]
fn new_buckets_are_empty() {
    let buckets = HashBuckets::new();
    assert_eq!(buckets.len(), 0);
    assert!(buckets.get(fp(7)).is_none());
}

#[test]
fn a_path_joins_the_bucket_of_its_fingerprint() {
    let mut buckets = HashBuckets::new();
    buckets.record(fp(7), "a.png".to_string());
    buckets.record(fp(9), "b.png".to_string());
    buckets.record(fp(7), "c.png".to_string());
    assert_eq!(buckets.len(), 2);
    assert_eq!(buckets.get(fp(7)), Some(&vec!["a.png".to_string(), "c.png".to_string()]));
    assert_eq!(buckets.get(fp(9)), Some(&vec!["b.png".to_string()]));
    assert_eq!(buckets.get(fp(8)), None);
}

#[test]
fn buckets_stand_in_the_order_of_first_arrival() {
    let mut buckets = HashBuckets::new();
    buckets.record(fp(30), "x".to_string());
    buckets.record(fp(10), "y".to_string());
    buckets.record(fp(30), "z".to_string());
    buckets.record(fp(20), "w".to_string());
    assert_eq!(buckets.len(), 3);
    assert_eq!(buckets.fingerprint_at(0), fp(30));
    assert_eq!(buckets.fingerprint_at(1), fp(10));
    assert_eq!(buckets.fingerprint_at(2), fp(20));
    assert_eq!(buckets.paths_at(0), &vec!["x".to_string(), "z".to_string()]);
    assert_eq!(buckets.paths_at(1), &vec!["y".to_string()]);
    assert_eq!(buckets.paths_at(2), &vec!["w".to_string()]);
}

#[test]
fn every_recorded_path_is_in_exactly_one_bucket() {
    let mut buckets = HashBuckets::new();
    let mut recorded = Vec::new();
    for i in 0..200u64 {
        let path = format!("img{}.png", i);
        buckets.record(fp(i % 17), path.clone());
        recorded.push(path);
    }
    assert_eq!(buckets.len(), 17);
    let mut held = Vec::new();
    for b in 0..buckets.len() {
        for path in buckets.paths_at(b) {
            held.push(path.clone());
        }
    }
    held.sort();
    recorded.sort();
    assert_eq!(held, recorded);
}
