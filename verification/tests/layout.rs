use rpk::config::keycodes::key_code;
use rpk::config::parser::text_to_binary;
use rpk::key_range::MACROS_MIN;
use rpk::layout::Manager;
use rpk::macros::{KeyPlusMod, Macro, SequenceMode};

fn kpm(code: u16) -> Option<KeyPlusMod> {
    Some(KeyPlusMod::new(code, 0))
}

fn kpm_name(name: &str) -> Option<KeyPlusMod> {
    kpm(key_code(name).unwrap())
}

#[test]
fn clear_modifier_layers() {
    let codes = text_to_binary(
        r#"
[matrix:1x3]

0x00 = a b c

[main]

c = layer(l1)

[l1]

c = layer(l2)

[l2]

a = 1
"#,
    )
    .unwrap();

    let mut mgr = Manager::<1, 3, 100>::new();

    mgr.load(&codes).unwrap();

    mgr.push_layer(2);
    mgr.push_layer(6);
    mgr.push_layer(7);
    mgr.push_layer(4);
    mgr.push_layer(1);
    mgr.push_layer(1);
    mgr.push_layer(7);

    assert_eq!(&mgr.mapping[mgr.layout_bottom..mgr.layout_top], &[5, 2, 6, 7, 4, 1, 1, 7]);

    mgr.clear_modifier_layers();

    assert_eq!(&mgr.mapping[mgr.layout_bottom..mgr.layout_top], &[5, 6, 7, 7]);
}

#[test]
fn macro_stack() {
    let mut mgr = Manager::<1, 3, 100>::new();
    mgr.clear_all();

    assert!(matches!(
        mgr.push_macro(Macro::Sequence { mode: SequenceMode::Tap, location: 2, rem: 5 }),
        Macro::Sequence { .. }
    ));

    assert!(!mgr.push_memo(&[1, 2, 3]));

    assert!(matches!(
        mgr.push_macro(Macro::Sequence { mode: SequenceMode::Hold, location: 3, rem: 3 }),
        Macro::Sequence { .. }
    ));

    let mac = mgr.pop_macro();

    assert!(matches!(mac, Macro::Sequence { mode: SequenceMode::Tap, location: 2, rem: 5 }));

    let mac = mgr.pop_macro();

    assert!(matches!(mac, Macro::Noop));
}

#[test]
fn memo_fifo() {
    let mut mgr = Manager::<1, 3, 100>::new();
    mgr.clear_all();

    assert_eq!(mgr.memo_bottom, 100);

    mgr.push_memo(&[1, 2, 3]);
    mgr.push_memo(&[4, 5, 6]);

    assert_eq!(mgr.pop_memo().unwrap(), vec![1, 2, 3], "should be fifo");

    assert_eq!(mgr.memo_top, 96);
    assert!(mgr.push_memo(&[7, 8, 9]));
    assert_eq!(mgr.memo_top, 100);

    assert_eq!(mgr.pop_memo().unwrap(), vec![4, 5, 6], "should be fifo");

    let memo = mgr.pop_memo().unwrap();
    assert!(mgr.pop_memo().is_none());
    assert_eq!(memo, vec![7, 8, 9], "should be fifo");

    assert_eq!(mgr.macro_stack, 92);
    assert_eq!(mgr.memo_bottom, 92);
    assert_eq!(mgr.memo_top, 92);

    mgr.push_memo(&[1]);

    assert_eq!(mgr.macro_stack, 98);
    assert_eq!(mgr.memo_bottom, 98);
    assert_eq!(mgr.memo_top, 100);
}

#[test]
fn mixed_memos_and_macros() {
    let mut mgr = Manager::<1, 3, 100>::new();
    mgr.clear_all();

    mgr.push_memo(&[1, 2, 3]);
    mgr.push_memo(&[4, 5, 6]);
    mgr.pop_memo();

    assert_eq!(mgr.memo_top, 96);

    assert!(matches!(
        mgr.push_macro(Macro::Sequence { mode: SequenceMode::Tap, location: 2, rem: 5 }),
        Macro::Sequence { .. }
    ));

    assert!(matches!(
        mgr.push_macro(Macro::Sequence { mode: SequenceMode::Release, location: 3, rem: 1 }),
        Macro::Sequence { .. }
    ));

    assert_eq!(mgr.memo_top, 100);

    assert_eq!(mgr.pop_memo().unwrap(), vec![4, 5, 6], "should be fifo");

    let mac = mgr.pop_macro();
    assert!(matches!(mac, Macro::Sequence { mode: SequenceMode::Tap, location: 2, rem: 5 }));
}

#[test]
fn load_macros() {
    let codes = text_to_binary(
        r#"
[matrix:1x3]

0x00 = a b c

[main]

c = S-z
a = C-G-k
"#,
    )
    .unwrap();

    let mut mgr = Manager::<1, 3, 100>::new();

    mgr.load(&codes).unwrap();

    assert_eq!(mgr.find_code(0, 2), kpm(MACROS_MIN));
    assert_eq!(mgr.find_code(0, 0), kpm(MACROS_MIN + 1));
}

#[test]
fn find_code_sparse() {
    let codes = text_to_binary(
        r#"
[matrix:5x10]

0x12 = a
0x16 = 2
0x45 = d
"#,
    )
    .unwrap();

    let mut mgr = Manager::<5, 10, 100>::new();

    mgr.load(&codes).unwrap();

    assert_eq!(mgr.find_code(1, 6), kpm(31));
    assert_eq!(mgr.find_code(2, 6), None);
    assert_eq!(mgr.find_code(4, 5), kpm(7));
    assert_eq!(mgr.find_code(1, 2), kpm(4));
}

#[test]
fn find_code() {
    let codes = text_to_binary(
        r#"
[matrix:2x3]

0x00 = a b c
0x10 = d e f
"#,
    )
    .unwrap();

    let mut mgr = Manager::<2, 3, 100>::new();

    mgr.load(&codes).unwrap();

    assert_eq!(mgr.find_code(1, 2), kpm_name("f"));
    assert_eq!(mgr.find_code(0, 1), kpm(5));
}

#[test]
fn multi_layers() {
    let codes = text_to_binary(
        r#"
[matrix:2x4]

0x00 = a b c d
0x10 = e f g h

[layer_1]

a = 1
f = 2
g = 3

[layer_2]

f = 4
"#,
    )
    .unwrap();

    let mut mgr = Manager::<2, 4, 100>::new();

    mgr.load(&codes).unwrap();

    assert_eq!(mgr.find_code(1, 2), kpm_name("g"));
    assert_eq!(mgr.find_code(1, 1), kpm_name("f"));

    mgr.push_layer(6);

    assert_eq!(mgr.find_code(1, 3), kpm_name("h"));
    assert_eq!(mgr.find_code(1, 1), kpm_name("2"));

    mgr.push_layer(7);

    assert_eq!(mgr.find_code(1, 3), kpm_name("h"));
    assert_eq!(mgr.find_code(1, 1), kpm_name("4"));
    assert_eq!(mgr.find_code(0, 0), kpm_name("1"));

    assert!(mgr.pop_layer(6));

    assert_eq!(mgr.find_code(1, 3), kpm_name("h"));
    assert_eq!(mgr.find_code(1, 1), kpm_name("4"));
    assert_eq!(mgr.find_code(0, 0), kpm_name("a"));
}

fn composite_layout() -> Vec<u16> {
    text_to_binary(
        r#"
[matrix:1x1]

0x00 = a

[shift]

a = b

[control]

a = c

[control+shift]

a = d
"#,
    )
    .unwrap()
}

fn code_at(mgr: &Manager<1, 1, 100>) -> Option<u16> {
    mgr.find_code(0, 0).map(|k| k.0)
}

fn layer_giving(codes: &[u16], name: &str) -> u16 {
    (0..6u16)
        .find(|k| {
            let mut mgr = Manager::<1, 1, 100>::new();
            mgr.load(codes).unwrap();
            mgr.push_layer(*k) && code_at(&mgr) == key_code(name)
        })
        .unwrap()
}

#[test]
fn popping_a_part_drops_its_composite_layer() {
    let codes = composite_layout();
    let shift = layer_giving(&codes, "b");
    let control = layer_giving(&codes, "c");

    let mut mgr = Manager::<1, 1, 100>::new();
    mgr.load(&codes).unwrap();
    assert_eq!(code_at(&mgr), key_code("a"));
    assert!(mgr.push_layer(shift));
    assert_eq!(code_at(&mgr), key_code("b"));
    assert!(mgr.push_layer(control));
    assert_eq!(code_at(&mgr), key_code("d"));

    assert!(mgr.pop_layer(shift));
    assert_eq!(code_at(&mgr), key_code("c"));
    assert!(mgr.pop_layer(control));
    assert_eq!(code_at(&mgr), key_code("a"));
    assert!(!mgr.pop_layer(control));
}
