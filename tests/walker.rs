use std::collections::HashMap;

use ssi::{get_subtrie_node, Error, SubtrieEntry, Walker};

fn pack(n: &[u8]) -> Vec<u8> {
    let mut out = Vec::new();
    let mut i = 0;
    if n.len() % 2 == 1 {
        out.push(n[0]);
        i = 1;
    }
    while i < n.len() {
        out.push((n[i] << 4) | n[i + 1]);
        i += 2;
    }
    out
}

fn compact(len: usize) -> Vec<u8> {
    if len < 64 {
        vec![(len as u8) << 2]
    } else {
        let v = ((len << 2) | 1) as u16;
        vec![(v % 256) as u8, (v / 256) as u8]
    }
}

fn leaf(partial: &[u8], value: &[u8]) -> Vec<u8> {
    let mut v = vec![0x40 | partial.len() as u8];
    v.extend(pack(partial));
    v.extend(compact(value.len()));
    v.extend_from_slice(value);
    v
}

fn nibbles(hex: &str) -> Vec<u8> {
    hex.chars().map(|c| c.to_digit(16).unwrap() as u8).collect()
}

fn branch(partial: &[u8], value: Option<&[u8]>, children: &[(usize, Vec<u8>)]) -> Vec<u8> {
    let mut v = vec![if value.is_some() { 0xc0 } else { 0x80 } | partial.len() as u8];
    v.extend(pack(partial));
    let mut bitmap: u16 = 0;
    for (i, _) in children {
        bitmap |= 1 << i;
    }
    v.push((bitmap % 256) as u8);
    v.push((bitmap / 256) as u8);
    if let Some(value) = value {
        v.push((value.len() as u8) << 2);
        v.extend_from_slice(value);
    }
    for (_, c) in children {
        v.push((c.len() as u8) << 2);
        v.extend_from_slice(c);
    }
    v
}

fn hash(b: u8) -> Vec<u8> {
    vec![b; 32]
}

fn run(store: &HashMap<Vec<u8>, Vec<u8>>, mut w: Walker) -> Result<Vec<SubtrieEntry>, Error> {
    let mut steps = 0;
    while w.is_running() {
        let fetched = w.wanted().and_then(|h| store.get(&h).cloned());
        w.step(fetched);
        steps += 1;
        assert!(steps < 1000);
    }
    w.finish()
}

/// A trie: the root branches at nibble 2 into a branch with partial "6" holding a value,
/// whose children at nibbles 1 and 5 are leaves, and whose child at nibble 9 is a branch
/// with leaves at 0 and 3, one of them inline.
fn fixture() -> HashMap<Vec<u8>, Vec<u8>> {
    let mut store = HashMap::new();
    store.insert(hash(2), leaf(&[0xa, 0xb], &[1, 2, 3, 4, 5]));
    store.insert(hash(3), leaf(&[0xc], &[6, 7]));
    let inner = branch(&[], None, &[(0, hash(4)), (3, leaf(&[1], &[8]))]);
    store.insert(hash(4), leaf(&[], &[9, 9, 9]));
    store.insert(hash(5), inner);
    store.insert(
        hash(1),
        branch(&[6], Some(&[0xee]), &[(1, hash(2)), (5, hash(3)), (9, hash(5))]),
    );
    store.insert(hash(0), branch(&[], None, &[(2, hash(1))]));
    store
}

#[test]
fn exact_leaf_lookup_gives_one_leaf() {
    let store = fixture();
    let w = get_subtrie_node("261ab", hash(0), true, true).unwrap();
    let out = run(&store, w).unwrap();
    assert_eq!(out.len(), 1);
    assert!(out[0].is_leaf);
    assert_eq!(out[0].data, vec![1, 2, 3, 4, 5]);
    assert_eq!(out[0].path, "261");
}

#[test]
fn account_lookup_under_system_account() {
    let key = "26aa394eea5630e07c48ae0c9558cef7b99d880ec681799c0cf30e8886371da93fe5e3a3f34ce9df2f2f457665";
    let account: Vec<u8> = (0..80).collect();
    let mut store = HashMap::new();
    store.insert(hash(2), leaf(&nibbles(&key[65..]), &account));
    store.insert(hash(3), leaf(&nibbles(&key[65..]), &[1]));
    store.insert(
        hash(1),
        branch(&nibbles(&key[33..64]), None, &[(3, hash(2)), (4, hash(3))]),
    );
    store.insert(hash(0), branch(&nibbles(&key[..32]), None, &[(11, hash(1))]));
    let w = get_subtrie_node(key, hash(0), true, true).unwrap();
    let out = run(&store, w).unwrap();
    assert_eq!(out.len(), 1);
    assert!(out[0].is_leaf);
    assert_eq!(out[0].data.len(), 80);
    assert_eq!(out[0].data, account);
}

#[test]
fn leaf_only_harvest_skips_branch_values() {
    let store = fixture();
    let w = get_subtrie_node("26", hash(0), true, true).unwrap();
    let out = run(&store, w).unwrap();
    let paths: Vec<&str> = out.iter().map(|e| e.path.as_str()).collect();
    assert_eq!(paths, vec!["261", "265", "2690", "2693"]);
    assert!(out.iter().all(|e| e.is_leaf));
    assert_eq!(out[3].data, vec![8]);
}

#[test]
fn all_node_harvest_reports_branch_values() {
    let store = fixture();
    let w = get_subtrie_node("26", hash(0), true, false).unwrap();
    let out = run(&store, w).unwrap();
    assert_eq!(out.len(), 6);
    assert_eq!(out[0].path, "26");
    assert_eq!(out[0].data, vec![0xee]);
    assert!(!out[0].is_leaf);
    assert!(out.iter().filter(|e| !e.is_leaf).count() == 2);
}

#[test]
fn prefix_inside_a_partial_key_harvests_below_it() {
    let store = fixture();
    let w = get_subtrie_node("2", hash(0), true, true).unwrap();
    let out = run(&store, w).unwrap();
    let paths: Vec<&str> = out.iter().map(|e| e.path.as_str()).collect();
    assert_eq!(paths, vec!["261", "265", "2690", "2693"]);
}

#[test]
fn exact_branch_without_children() {
    let store = fixture();
    let w = get_subtrie_node("26", hash(0), false, false).unwrap();
    let out = run(&store, w).unwrap();
    assert_eq!(out.len(), 1);
    assert_eq!(out[0].data, vec![0xee]);
    assert!(!out[0].is_leaf);
}

#[test]
fn missing_child_without_harvest_is_an_empty_entry() {
    let store = fixture();
    let w = get_subtrie_node("2670", hash(0), false, false).unwrap();
    let out = run(&store, w).unwrap();
    assert_eq!(out.len(), 1);
    assert_eq!(out[0].path, "26");
    assert!(!out[0].is_leaf);
    assert!(out[0].data.is_empty());
}

#[test]
fn missing_node_is_an_error() {
    let mut store = fixture();
    store.remove(&hash(3));
    let w = get_subtrie_node("26", hash(0), true, true).unwrap();
    match run(&store, w) {
        Err(Error::NodeMissing(h)) => assert_eq!(h, hash(3)),
        other => panic!("unexpected {:?}", other.map(|v| v.len())),
    }
}

#[test]
fn missing_root_is_an_error() {
    let store = HashMap::new();
    let w = get_subtrie_node("26", hash(0), true, true).unwrap();
    assert!(matches!(run(&store, w), Err(Error::NodeMissing(_))));
}

#[test]
fn corrupt_node_is_an_error() {
    let mut store = fixture();
    store.insert(hash(2), vec![0x41]);
    let w = get_subtrie_node("26", hash(0), true, true).unwrap();
    assert!(matches!(run(&store, w), Err(Error::Corrupt(_))));
}

#[test]
fn leaf_of_hash_size_leads_into_a_child_trie() {
    let mut store = HashMap::new();
    store.insert(hash(7), leaf(&[1], &[4, 2]));
    store.insert(hash(0), leaf(&[5], &hash(7)));
    let w = get_subtrie_node("", hash(0), true, true).unwrap();
    let out = run(&store, w).unwrap();
    assert_eq!(out.len(), 1);
    assert_eq!(out[0].data, vec![4, 2]);
}

#[test]
fn empty_trie_gives_an_empty_entry() {
    let mut store = HashMap::new();
    store.insert(hash(0), vec![0]);
    let w = get_subtrie_node("26", hash(0), true, true).unwrap();
    let out = run(&store, w).unwrap();
    assert_eq!(out.len(), 1);
    assert!(out[0].data.is_empty());
}

#[test]
fn non_hex_key_is_refused() {
    assert!(matches!(
        get_subtrie_node("2g", hash(0), true, true),
        Err(Error::OptionValueIncorrect(_, _))
    ));
}

#[test]
fn walker_names_the_nodes_it_wants() {
    let w = get_subtrie_node("26", hash(0), true, true).unwrap();
    assert!(w.is_running());
    assert_eq!(w.wanted(), Some(hash(0)));
}

#[test]
fn leaf_with_a_hashed_value_is_reported_not_followed() {
    let mut store = HashMap::new();
    store.insert(hash(7), leaf(&[1], &[4, 2]));
    let mut node = vec![0x20 | 1, 5];
    node.extend(hash(7));
    store.insert(hash(0), node);
    let w = get_subtrie_node("", hash(0), true, true).unwrap();
    let out = run(&store, w).unwrap();
    assert_eq!(out.len(), 1);
    assert!(out[0].is_leaf);
    assert_eq!(out[0].data, hash(7));
}

#[test]
fn wanted_path_follows_the_walk() {
    let store = fixture();
    let mut w = get_subtrie_node("26", hash(0), true, true).unwrap();
    assert_eq!(w.wanted_path(), Vec::<u8>::new());
    w.step(store.get(&hash(0)).cloned());
    assert_eq!(w.wanted(), Some(hash(1)));
    assert_eq!(w.wanted_path(), vec![2]);
    w.step(store.get(&hash(1)).cloned());
    assert_eq!(w.wanted(), Some(hash(2)));
    assert_eq!(w.wanted_path(), vec![2, 6, 1]);
}
