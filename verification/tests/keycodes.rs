use rpk::config::keycodes::{
    char_to_code, key_code, keycodes_iter, modifiers_to_bit_map, unshifted_char_code,
};

fn kc(c: &str) -> u16 {
    match key_code(c) {
        Some(kc) => kc,
        None => panic!("Unknown key mnemonic: {c:?}"),
    }
}

#[test]
fn modifiers_convert() {
    assert_eq!(modifiers_to_bit_map("S").unwrap(), 2);
}

#[test]
fn char_to_code_test() {
    fn ccode(c: char) -> u16 {
        let a = char_to_code(unshifted_char_code(c));
        assert!(a != 0, "invalid char {c}");
        a
    }

    assert_eq!(ccode('a'), kc("a"));
    assert_eq!(ccode('0'), kc("0"));
    assert_eq!(ccode('1'), kc("1"));
    assert_eq!(ccode('A'), kc("a"));
    assert_eq!(ccode('5'), kc("5"));
    assert_eq!(ccode('%'), kc("5"));
    assert_eq!(ccode('['), kc("["));
    assert_eq!(ccode('['), kc("\\["));
    assert_eq!(ccode('\\'), kc("\\"));
    assert_eq!(ccode('<'), kc(","));
    assert_eq!(ccode('{'), kc("["));
}

#[test]
fn test_key_code() {
    assert_eq!(key_code("mediaplaypause"), Some(232));
    assert_eq!(key_code("Media_Play_Pause"), Some(232));
    assert_eq!(key_code("a"), Some(4));
    assert_eq!(key_code("A"), Some(4));
    assert_eq!(key_code("-"), Some(45));
}

#[test]
fn test_list_keycodes() {
    let m = keycodes_iter().into_iter().filter(|l| l.name.starts_with("Mouse"));

    assert_eq!(m.count(), 23);

    let k = keycodes_iter().into_iter().find(|d| d.code == 0xb5).unwrap();
    assert_eq!(k.name, "CurrencySubUnit");
}

#[test]
fn modifier_names_round_trip_all() {
    for m in 0u16..=255 {
        let m = m as u8;
        let text = rpk::config::keycodes::modifiers_to_string(m);
        assert_eq!(rpk::config::keycodes::modifiers_to_bit_map(text.as_str()), Some(m));
    }
}
