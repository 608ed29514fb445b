use dupfinder::order::{group_leq, path_leq};
use dupfinder::sorting::sorted;

fn group(paths: &[&str]) -> Vec<String> {
    paths.iter().map(|p| p.to_string()).collect()
}

#[test]
fn paths_compare_character_by_character() {
    assert!(path_leq("a", "b"));
    assert!(!path_leq("b", "a"));
    assert!(path_leq("abc", "abd"));
    assert!(!path_leq("abd", "abc"));
    assert!(path_leq("a/z", "b/a"));
}

#[test]
fn a_path_comes_before_its_extensions() {
    assert!(path_leq("", "a"));
    assert!(!path_leq("a", ""));
    assert!(path_leq("img", "img.png"));
    assert!(!path_leq("img.png", "img"));
}

#[test]
fn equal_paths_are_at_most_each_other() {
    assert!(path_leq("same.png", "same.png"));
    assert!(path_leq("", ""));
}

#[test]
fn capital_letters_come_before_small_ones() {
    assert!(path_leq("Z.png", "a.png"));
    assert!(!path_leq("a.png", "Z.png"));
    assert!(path_leq("a10", "a9"));
}

#[test]
fn characters_are_ordered_by_code_point() {
    assert!(path_leq("z", "é"));
    assert!(path_leq("é", "日"));
    assert!(!path_leq("日", "é"));
    assert!(path_leq("日", "😀"));
}

#[test]
fn the_path_order_agrees_with_the_order_of_strings() {
    let samples = ["", "a", "A", "ab", "b", "a/b", "a.b", "é", "e", "zz", "z", "日本", "a b"];
    for x in samples {
        for y in samples {
            assert_eq!(path_leq(x, y), x <= y);
        }
    }
}

#[test]
fn groups_compare_by_their_first_differing_member() {
    assert!(group_leq(&group(&["a", "z"]), &group(&["b", "c"])));
    assert!(!group_leq(&group(&["b", "c"]), &group(&["a", "z"])));
    assert!(group_leq(&group(&["a", "b"]), &group(&["a", "c"])));
    assert!(!group_leq(&group(&["a", "c"]), &group(&["a", "b"])));
    assert!(group_leq(&group(&["a"]), &group(&["a", "b"])));
    assert!(!group_leq(&group(&["a", "b"]), &group(&["a"])));
    assert!(group_leq(&group(&["a", "b"]), &group(&["a", "b"])));
    assert!(group_leq(&group(&[]), &group(&["a"])));
}

#[test]
fn sorting_puts_paths_in_ascending_order() {
    let paths = group(&["pear", "apple", "fig", "apple", "Zebra", "", "figs"]);
    assert_eq!(sorted(paths), group(&["", "Zebra", "apple", "apple", "fig", "figs", "pear"]));
}

#[test]
fn sorting_nothing_gives_nothing() {
    assert_eq!(sorted(Vec::<String>::new()), Vec::<String>::new());
    assert_eq!(sorted(group(&["one"])), group(&["one"]));
}

#[test]
fn sorting_agrees_with_the_standard_sort() {
    let mut paths = Vec::new();
    let mut seed: u32 = 12345;
    for _ in 0..300 {
        seed = seed.wrapping_mul(1103515245).wrapping_add(12345);
        paths.push(format!("dir{}/img{}.png", (seed >> 16) % 7, (seed >> 8) % 50));
    }
    let mut expected = paths.clone();
    expected.sort();
    assert_eq!(sorted(paths), expected);
}

#[test]
fn sorting_puts_groups_in_ascending_order() {
    let groups = vec![group(&["m", "n"]), group(&["a", "z"]), group(&["a", "b", "c"]), group(&["a", "b"])];
    assert_eq!(
        sorted(groups),
        vec![group(&["a", "b"]), group(&["a", "b", "c"]), group(&["a", "z"]), group(&["m", "n"])]
    );
}
