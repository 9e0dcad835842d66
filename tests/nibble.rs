use ssi::{map_char_to_pos, map_pos_to_char, parse_nibbles, render_nibbles};

#[test]
fn hex_digits_map_to_positions() {
    assert_eq!(map_char_to_pos('0'), 0);
    assert_eq!(map_char_to_pos('9'), 9);
    assert_eq!(map_char_to_pos('a'), 10);
    assert_eq!(map_char_to_pos('B'), 11);
    assert_eq!(map_char_to_pos('f'), 15);
    assert_eq!(map_pos_to_char(0), '0');
    assert_eq!(map_pos_to_char(10), 'a');
    assert_eq!(map_pos_to_char(15), 'f');
}

#[test]
fn lower_hex_round_trips() {
    let s = "26aa394eea5630e07c48ae0c9558cef7";
    let p = parse_nibbles(s).unwrap();
    assert_eq!(p.len(), 32);
    assert_eq!(p[0], 2);
    assert_eq!(p[2], 10);
    assert_eq!(render_nibbles(&p), s);
}

#[test]
fn upper_hex_renders_lower() {
    assert_eq!(render_nibbles(&parse_nibbles("0A1f").unwrap()), "0a1f");
}

#[test]
fn non_hex_is_refused() {
    assert_eq!(parse_nibbles("12g4"), None);
    assert_eq!(parse_nibbles("0x12"), None);
    assert_eq!(parse_nibbles(""), Some(vec![]));
}
