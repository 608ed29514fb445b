use dupfinder::report::render_report;

fn groups_of(groups: &[&[&str]]) -> Vec<Vec<String>> {
    groups.iter().map(|g| g.iter().map(|p| p.to_string()).collect()).collect()
}

#[test]
fn no_groups_no_text() {
    assert_eq!(render_report(&Vec::new()), "");
}

#[test]
fn a_group_is_a_heading_its_paths_and_an_empty_line() {
    let groups = groups_of(&[&["a.png", "b.png"]]);
    assert_eq!(render_report(&groups), "Duplicate images:\na.png\nb.png\n\n");
}

#[test]
fn blocks_follow_each_other_in_the_order_of_the_groups() {
    let groups = groups_of(&[&["x/1.jpg", "x/2.jpg", "y/3.jpg"], &["z.gif", "zz.gif"]]);
    assert_eq!(
        render_report(&groups),
        "Duplicate images:\nx/1.jpg\nx/2.jpg\ny/3.jpg\n\nDuplicate images:\nz.gif\nzz.gif\n\n"
    );
}
