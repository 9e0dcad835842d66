use ssi::diff::unique_entry_paths;
use ssi::{diff, NodeChangeStatus, SubtrieEntry};

fn entry(path: &str, data: &[u8], is_leaf: bool) -> SubtrieEntry {
    SubtrieEntry { path: path.to_string(), data: data.to_vec(), is_leaf }
}

#[test]
fn diff_against_itself_is_empty() {
    let x = vec![entry("26", &[1, 2, 3], true), entry("27", &[], false), entry("2a", &[9], true)];
    let y = vec![entry("26", &[1, 2, 3], true), entry("27", &[], false), entry("2a", &[9], true)];
    assert!(diff(&x, &y).is_empty());
}

#[test]
fn length_change_is_one_insert() {
    let before = vec![entry("26", &[1, 2, 3], true), entry("2a", &[9], true)];
    let after = vec![entry("26", &[1, 2, 3, 4], true), entry("2a", &[9], true)];
    let d = diff(&before, &after);
    assert_eq!(d.len(), 1);
    assert_eq!(d[0].path, "26");
    assert_eq!(d[0].status, NodeChangeStatus::Insert);
    assert_eq!(d[0].codes, vec![1, 2, 3, 4]);
}

#[test]
fn same_length_change_is_a_modify() {
    let before = vec![entry("26", &[1, 2, 3], true)];
    let after = vec![entry("26", &[1, 0, 7], true)];
    let d = diff(&before, &after);
    assert_eq!(d.len(), 1);
    assert_eq!(d[0].status, NodeChangeStatus::Modify);
    assert_eq!(d[0].codes, vec![0, 0, 7]);
}

#[test]
fn new_and_gone_paths() {
    let before = vec![entry("26", &[5, 6], true)];
    let after = vec![entry("27", &[7], true)];
    let d = diff(&before, &after);
    assert_eq!(d.len(), 2);
    assert_eq!(d[0].path, "27");
    assert_eq!(d[0].status, NodeChangeStatus::Insert);
    assert_eq!(d[0].codes, vec![7]);
    assert_eq!(d[1].path, "26");
    assert_eq!(d[1].status, NodeChangeStatus::Delete);
    assert_eq!(d[1].codes, vec![-5, -6]);
}

#[test]
fn empty_subtrees_have_no_changes() {
    assert!(diff(&vec![], &vec![]).is_empty());
}

#[test]
fn length_change_in_another_order_is_one_insert() {
    let before = vec![entry("2a", &[9], true), entry("26", &[1, 2, 3], true)];
    let after = vec![entry("26", &[1, 2], true), entry("2a", &[9], true)];
    let d = diff(&before, &after);
    assert_eq!(d.len(), 1);
    assert_eq!(d[0].path, "26");
    assert_eq!(d[0].status, NodeChangeStatus::Insert);
    assert_eq!(d[0].codes, vec![1, 2]);
}

#[test]
fn duplicate_paths_are_found() {
    assert!(unique_entry_paths(&vec![entry("26", &[1], true), entry("27", &[1], true)]));
    assert!(!unique_entry_paths(&vec![
        entry("26", &[1], true),
        entry("27", &[1], true),
        entry("26", &[2], true)
    ]));
    assert!(unique_entry_paths(&vec![]));
}
