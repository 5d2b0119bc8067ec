use rpk::config::keycodes::keycodes_iter;
use rpk::config::listing::{group_by_code, list_keycodes, listed_keycodes, CodeType};

#[test]
fn listing_by_hex_code_picks_that_code() {
    let v = list_keycodes(None, Some("0x04"), false).unwrap();
    assert!(!v.is_empty());
    assert!(v.iter().all(|d| d.code == 4));
    assert!(v.iter().any(|d| d.name == "A"));
    let upper = list_keycodes(None, Some("0X4"), false).unwrap();
    assert_eq!(
        upper.iter().map(|d| d.name).collect::<Vec<_>>(),
        v.iter().map(|d| d.name).collect::<Vec<_>>()
    );
}

#[test]
fn listing_refuses_bad_hex() {
    assert!(list_keycodes(None, Some("0xzz"), false).is_err());
    assert!(list_keycodes(None, Some("0x"), false).is_err());
    assert!(list_keycodes(None, Some("0x10000"), false).is_err());
    assert!(listed_keycodes(None, Some("0x+"), true).is_err());
}

#[test]
fn listing_by_pattern_ignores_case() {
    let v = list_keycodes(None, Some("LeftGUI"), false).unwrap();
    assert!(!v.is_empty());
    assert!(v.iter().all(|d| d.name.to_lowercase().contains("leftgui")));
    let all = keycodes_iter();
    let expected = all
        .iter()
        .filter(|d| d.name.to_lowercase().contains("leftgui"))
        .count();
    assert_eq!(v.len(), expected);
}

#[test]
fn listing_by_class_and_order() {
    let v = list_keycodes(Some(CodeType::Consumer), None, false).unwrap();
    assert!(!v.is_empty());
    assert!(v.iter().all(|d| (0x100..=0x3a0).contains(&d.code)));
    assert!(v.windows(2).all(|w| w[0].name <= w[1].name));

    let v = list_keycodes(None, None, true).unwrap();
    assert_eq!(v.len(), keycodes_iter().len());
    assert!(v
        .windows(2)
        .all(|w| (w[0].code, w[0].name) <= (w[1].code, w[1].name)));

    let v = list_keycodes(Some(CodeType::Basic), None, true).unwrap();
    assert!(v.iter().all(|d| d.code <= 0xfe));
    let m = list_keycodes(Some(CodeType::Mouse), None, true).unwrap();
    assert!(m.iter().all(|d| (0x400..=0x4ff).contains(&d.code)));
}

#[test]
fn grouping_by_code_keeps_runs() {
    let v = list_keycodes(None, None, true).unwrap();
    let groups = group_by_code(&v);
    assert!(groups.windows(2).all(|w| w[0].0 != w[1].0));
    assert!(groups.iter().all(|g| !g.1.is_empty()));
    let flat: Vec<(u16, &str)> = groups
        .iter()
        .flat_map(|(c, names)| names.iter().map(move |n| (*c, *n)))
        .collect();
    let orig: Vec<(u16, &str)> = v.iter().map(|d| (d.code, d.name)).collect();
    assert_eq!(flat, orig);
    let four = groups.iter().find(|g| g.0 == 4).unwrap();
    assert!(four.1.contains(&"A"));
}
