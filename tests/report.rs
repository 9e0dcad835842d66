use ssi::report::{change_length, decimal, summary_hash, subtrie_path};
use ssi::{
    decode_line, decode_storage_key, describe_storage_key, json_diff, json_output, Blake2Hasher, DiffEntry,
    NodeChangeStatus, SubtrieEntry,
};

const EVE_KEY: &str = "26aa394eea5630e07c48ae0c9558cef7b99d880ec681799c0cf30e8886371da93fe5e3a3f34ce9df2f2f457665";

#[test]
fn raw_output_lists_bytes() {
    let out = vec![
        SubtrieEntry { path: "ab".to_string(), data: vec![1, 2], is_leaf: true },
        SubtrieEntry { path: "ac".to_string(), data: vec![], is_leaf: false },
    ];
    assert_eq!(json_output(&out, false, "a"), r#"[{"ab":[1, 2]},{"ac":[]}]"#);
    assert_eq!(json_output(&vec![], false, "a"), "[]");
}

#[test]
fn summary_output_names_the_key() {
    let out = vec![SubtrieEntry { path: EVE_KEY.to_string(), data: vec![0; 32], is_leaf: true }];
    let text = json_output(&out, true, "26aa394eea5630e07c48ae0c9558cef7");
    let expected = format!(
        r#"[{{"0x{}":{{"hash":"0x{}","length":32,"leaf":true,"subtrie_path":"{}","pallet":"System","field":"Account","key":"//Eve"}}}}]"#,
        EVE_KEY,
        "00".repeat(32),
        &EVE_KEY[32..]
    );
    assert_eq!(text, expected);
}

#[test]
fn raw_diff_lists_codes() {
    let d = vec![DiffEntry {
        path: "ab".to_string(),
        codes: vec![0, 7, -3],
        status: NodeChangeStatus::Modify,
    }];
    assert_eq!(json_diff(&d, false, "a"), r#"[{"ab":[0, 7, -3]}]"#);
    assert_eq!(
        json_diff(&d, true, "a"),
        r#"[{"0xab":{"length":3, "change_length":2,"status":"Modify","subtrie_path":"b","pallet":"","field":"","key":""}}]"#
    );
}

#[test]
fn numbers_and_counts() {
    assert_eq!(decimal(0), "0");
    assert_eq!(decimal(1234), "1234");
    assert_eq!(change_length(&vec![0, 1, -2, 0]), 2);
    assert_eq!(subtrie_path("abcd", "ab"), "cd");
    assert_eq!(subtrie_path("abcd", "x"), "abcd");
}

#[test]
fn summary_hash_keeps_hashes_and_digests_the_rest() {
    assert_eq!(summary_hash(&vec![5; 32]), vec![5; 32]);
    let h = summary_hash(&vec![]);
    assert_eq!(h.len(), 32);
    assert_eq!(
        h,
        Blake2Hasher::hash(&[]).to_vec()
    );
    assert_eq!(h[0], 0x0e);
    assert_eq!(h[1], 0x57);
}

#[test]
fn key_is_described() {
    assert_eq!(describe_storage_key(EVE_KEY), "System > Account > //Eve");
    assert_eq!(describe_storage_key("abc"), " >  > ");
}

#[test]
fn keys_in_a_line_are_decoded() {
    let line = format!("value at {} and at 0123 here", EVE_KEY);
    assert_eq!(decode_line(&line), "System > Account > //Eve");
    assert_eq!(decode_line("no keys here"), "");
    assert_eq!(decode_line("ffffffffffffffffffffffffffffffffffff"), "");
}

#[test]
fn checked_key_decoding() {
    assert_eq!(decode_storage_key(EVE_KEY).unwrap(), "System > Account > //Eve");
    assert!(decode_storage_key("26aa-not-hex").is_err());
}

#[test]
fn literals_are_maximal_lower_hex_runs() {
    let two = format!("{} {}", EVE_KEY, EVE_KEY);
    assert_eq!(
        decode_line(&two),
        "System > Account > //EveSystem > Account > //Eve"
    );
    let wrapped = format!("X{}Z", EVE_KEY);
    assert_eq!(decode_line(&wrapped), "System > Account > //Eve");
    let short = &EVE_KEY[..31];
    assert_eq!(decode_line(short), "");
    let longer = format!("{}0", EVE_KEY);
    assert_eq!(decode_line(&longer), "System > Account > 3fe5e3a3f34ce9df2f2f4576650");
}
