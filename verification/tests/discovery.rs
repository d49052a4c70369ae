use oclean::discover_descendants;
use oclean::parse_process_table;

fn members(set: &oclean::PidSet) -> Vec<i32> {
    let mut v = set.to_vec();
    v.sort();
    v
}

#[test]
fn root_with_no_children_is_alone() {
    let table = vec![(300, 200), (400, 300), (2, 1)];
    let found = discover_descendants(100, &Some(table));
    assert_eq!(members(&found), vec![100]);
}

#[test]
fn chain_and_branches_are_found() {
    let table = vec![(200, 100), (300, 200), (400, 200), (500, 9), (600, 400)];
    let found = discover_descendants(100, &Some(table));
    assert_eq!(members(&found), vec![100, 200, 300, 400, 600]);
}

#[test]
fn cyclic_snapshot_terminates_and_visits_each_pid_once() {
    let table = vec![(200, 100), (300, 200), (100, 300), (200, 300)];
    let found = discover_descendants(100, &Some(table));
    let listed = found.to_vec();
    assert_eq!(listed.len(), 3);
    assert_eq!(members(&found), vec![100, 200, 300]);
}

#[test]
fn unavailable_snapshot_degenerates_to_root() {
    let found = discover_descendants(4242, &None);
    assert_eq!(members(&found), vec![4242]);
}

#[test]
fn protected_roots_are_never_discovered() {
    let table = vec![(200, 1), (300, 0)];
    assert_eq!(discover_descendants(1, &Some(table.clone())).to_vec().len(), 0);
    assert_eq!(discover_descendants(0, &Some(table.clone())).to_vec().len(), 0);
    assert_eq!(discover_descendants(-7, &Some(table)).to_vec().len(), 0);
    assert_eq!(discover_descendants(1, &None).to_vec().len(), 0);
}

#[test]
fn listing_parses_to_pid_pairs() {
    let bytes = b"  12 1\n345 12\n".to_vec();
    assert_eq!(parse_process_table(&bytes), vec![(12, 1), (345, 12)]);
}

#[test]
fn malformed_listing_lines_are_ignored() {
    let bytes = b"abc 5\n 7 xyz\n  8  7 extra\n\n 9\n".to_vec();
    assert_eq!(parse_process_table(&bytes), vec![(8, 7)]);
}

#[test]
fn listing_edge_values() {
    assert_eq!(parse_process_table(&Vec::new()), Vec::<(i32, i32)>::new());
    let max_ok = b"2147483647 1\n".to_vec();
    assert_eq!(parse_process_table(&max_ok), vec![(2147483647, 1)]);
    let too_big = b"2147483648 1\n99999999999999999999 1\n".to_vec();
    assert_eq!(parse_process_table(&too_big), Vec::<(i32, i32)>::new());
    let no_trailing_newline = b"5 4";
    assert_eq!(parse_process_table(&no_trailing_newline.to_vec()), vec![(5, 4)]);
}
