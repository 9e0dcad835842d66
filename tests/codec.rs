use ssi::codec::{identity_encode, twox_128_name};
use ssi::{
    black2_128_concat_decode, blake2_128_concat_encode, get_storage_key_hash,
    hex_str_to_state_hash, storage_key_semantic_decode, twox_64_concat_decode,
    twox_64_concat_encode, Error, KeyRequest,
};

const EVE_KEY: &str = "26aa394eea5630e07c48ae0c9558cef7b99d880ec681799c0cf30e8886371da93fe5e3a3f34ce9df2f2f457665";

fn request(pallet: &str) -> KeyRequest {
    KeyRequest {
        pallet: pallet.to_string(),
        field: None,
        twox_64_concat: None,
        blake2_128_concat: None,
        identity: None,
        twox_64_concat_2nd: None,
        blake2_128_concat_2nd: None,
        identity_2nd: None,
    }
}

#[test]
fn test_twox_64_concat_decode() {
    assert_eq!(twox_64_concat_decode(""), None);
    assert_eq!(
        twox_64_concat_decode("3fe5e3a3f34ce9df2f2f457665"),
        Some("//Eve".to_string())
    );
}

#[test]
fn test_key_semantic_decode() {
    assert_eq!(
        storage_key_semantic_decode(EVE_KEY, false),
        (
            Some("System".to_string()),
            Some("Account".to_string()),
            Some("//Eve".to_string())
        )
    );
}

#[test]
fn semantic_decode_keeping_unresolved_gives_the_same_key() {
    assert_eq!(
        storage_key_semantic_decode(EVE_KEY, true),
        (
            Some("System".to_string()),
            Some("Account".to_string()),
            Some("//Eve".to_string())
        )
    );
}

#[test]
fn twox_64_concat_encodes_digest_then_text() {
    assert_eq!(twox_64_concat_encode("//Eve"), "3fe5e3a3f34ce9df2f2f457665");
}

#[test]
fn concat_keys_read_back() {
    for k in ["//Eve", "Alice", "a", "printable ~!@# text"] {
        assert_eq!(twox_64_concat_decode(&twox_64_concat_encode(k)), Some(k.to_string()));
        assert_eq!(
            black2_128_concat_decode(&blake2_128_concat_encode(k)),
            Some(k.to_string())
        );
    }
}

#[test]
fn blake2_128_concat_has_a_sixteen_byte_digest() {
    let e = blake2_128_concat_encode("//Eve");
    assert_eq!(e.len(), 32 + 10);
    assert!(e.ends_with("2f2f457665"));
    assert_ne!(&e[..32], "00000000000000000000000000000000");
}

#[test]
fn concat_decode_rejects_a_wrong_digest() {
    assert_eq!(twox_64_concat_decode("00000000000000002f2f457665"), None);
    assert_eq!(black2_128_concat_decode("3fe5e3a3f34ce9df2f2f457665"), None);
}

#[test]
fn empty_key_reads_back() {
    assert_eq!(twox_64_concat_encode("").len(), 16);
    assert_eq!(twox_64_concat_decode(&twox_64_concat_encode("")), Some(String::new()));
    assert_eq!(
        black2_128_concat_decode(&blake2_128_concat_encode("")),
        Some(String::new())
    );
}

#[test]
fn tail_that_spells_no_text_is_refused() {
    for tail in ["zz", "f", "ff"] {
        let twox = format!("{}{}", twox_64_concat_encode(""), tail);
        assert_eq!(twox_64_concat_decode(&twox), None);
        let blake = format!("{}{}", blake2_128_concat_encode(""), tail);
        assert_eq!(black2_128_concat_decode(&blake), None);
    }
}

#[test]
fn too_short_keys_do_not_read_back() {
    assert_eq!(twox_64_concat_decode("3fe5e3a3f34ce9d"), None);
    assert_eq!(black2_128_concat_decode("3fe5e3a3f34ce9df2f2f457665"), None);
}

#[test]
fn short_keys_decode_to_nothing() {
    assert_eq!(storage_key_semantic_decode("26aa", false), (None, None, None));
    assert_eq!(
        storage_key_semantic_decode("26aa394eea5630e07c48ae0c9558cef7b99d", false),
        (Some("System".to_string()), None, None)
    );
    assert_eq!(
        storage_key_semantic_decode("26aa394eea5630e07c48ae0c9558cef7b99d", true),
        (Some("System".to_string()), Some("b99d".to_string()), None)
    );
}

#[test]
fn unknown_field_stays_hex() {
    let key = "26aa394eea5630e07c48ae0c9558cef70123456789abcdef0123456789abcdef";
    assert_eq!(
        storage_key_semantic_decode(key, false),
        (
            Some("System".to_string()),
            Some("0123456789abcdef0123456789abcdef".to_string()),
            None
        )
    );
}

#[test]
fn known_digest_in_map_key_is_named() {
    let key = "26aa394eea5630e07c48ae0c9558cef7b99d880ec681799c0cf30e8886371da926aa394eea5630e07c48ae0c9558cef7abcd";
    assert_eq!(
        storage_key_semantic_decode(key, false).2,
        Some("System\u{2225}abcd".to_string())
    );
}

#[test]
fn identity_map_key_is_read_as_text() {
    let key = "26aa394eea5630e07c48ae0c9558cef7b99d880ec681799c0cf30e8886371da9616263";
    assert_eq!(storage_key_semantic_decode(key, false).2, Some("abc".to_string()));
    assert_eq!(storage_key_semantic_decode(key, true).2, Some("616263".to_string()));
    let not_utf8 = "26aa394eea5630e07c48ae0c9558cef7b99d880ec681799c0cf30e8886371da9ff";
    assert_eq!(storage_key_semantic_decode(not_utf8, false).2, None);
}

#[test]
fn names_hash_to_known_digests() {
    assert_eq!(twox_128_name("System"), "26aa394eea5630e07c48ae0c9558cef7");
    assert_eq!(twox_128_name("Account"), "b99d880ec681799c0cf30e8886371da9");
    assert_eq!(identity_encode("ab"), "6162");
}

#[test]
fn storage_key_is_built_from_names() {
    let mut req = request("System");
    req.field = Some("Account".to_string());
    req.twox_64_concat = Some("//Eve".to_string());
    assert_eq!(get_storage_key_hash(&req).unwrap(), EVE_KEY);
    let mut double = request("System");
    double.field = Some("Account".to_string());
    double.identity = Some("a".to_string());
    double.identity_2nd = Some("b".to_string());
    assert_eq!(
        get_storage_key_hash(&double).unwrap(),
        "26aa394eea5630e07c48ae0c9558cef7b99d880ec681799c0cf30e8886371da96162"
    );
    assert_eq!(
        get_storage_key_hash(&request("System")).unwrap(),
        "26aa394eea5630e07c48ae0c9558cef7"
    );
}

#[test]
fn map_key_without_field_is_refused() {
    let mut req = request("System");
    req.twox_64_concat = Some("//Eve".to_string());
    match get_storage_key_hash(&req) {
        Err(Error::OptionValueIncorrect(o, _)) => assert_eq!(o, "field"),
        other => panic!("unexpected {:?}", other),
    }
}

#[test]
fn second_key_without_first_is_refused() {
    let mut req = request("System");
    req.field = Some("Account".to_string());
    req.twox_64_concat_2nd = Some("//Eve".to_string());
    match get_storage_key_hash(&req) {
        Err(Error::OptionValueIncorrect(o, _)) => {
            assert_eq!(o, "twox 64 concat/black2 128 concat/identity")
        }
        other => panic!("unexpected {:?}", other),
    }
}

#[test]
fn root_hash_is_read() {
    let raw = "0x3b559d574c4a9f13e55d0256655f0f71a70a703766226f1080f80022e39c057d";
    let h = hex_str_to_state_hash(raw).unwrap();
    assert_eq!(h.len(), 32);
    assert_eq!(h[0], 0x3b);
    assert_eq!(h[31], 0x7d);
}

#[test]
fn bad_root_hashes_are_refused() {
    for raw in [
        "3b559d574c4a9f13e55d0256655f0f71a70a703766226f1080f80022e39c057d",
        "0xzz559d574c4a9f13e55d0256655f0f71a70a703766226f1080f80022e39c057d",
    ] {
        match hex_str_to_state_hash(raw) {
            Err(Error::OptionValueIncorrect(o, _)) => assert_eq!(o, "state root hash"),
            other => panic!("unexpected {:?}", other),
        }
    }
}

#[test]
fn hex_errors_are_explained() {
    match hex_str_to_state_hash("0xzz") {
        Err(Error::OptionValueIncorrect(_, why)) => {
            assert_eq!(why, "Invalid character 'z' at position 0")
        }
        other => panic!("unexpected {:?}", other),
    }
    match hex_str_to_state_hash("0x3b5") {
        Err(Error::OptionValueIncorrect(_, why)) => assert_eq!(why, "Odd number of digits"),
        other => panic!("unexpected {:?}", other),
    }
}

#[test]
fn root_hash_reasons() {
    match hex_str_to_state_hash("0x3b55") {
        Err(Error::OptionValueIncorrect(o, why)) => {
            assert_eq!(o, "state root hash");
            assert_eq!(why, "size is not correct");
        }
        other => panic!("unexpected {:?}", other),
    }
    match hex_str_to_state_hash("3b55") {
        Err(Error::OptionValueIncorrect(_, why)) => assert_eq!(why, "the 0x prefix is missing"),
        other => panic!("unexpected {:?}", other),
    }
}
