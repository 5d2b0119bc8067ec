use rpk::config::compiler::{GlobalProp, GlobalType, KeyboardConfig};
use rpk::config::error::ConfigError;
use rpk::config::keycodes::key_code;
use rpk::config::layer::{ConfigLayer, Macro};
use rpk::config::parser::{compile, text_to_binary};
use rpk::globals::PROTOCOL_VERSION;
use rpk::key_range::{self, LAYER_MIN, MACROS_MIN, TOGGLE_MIN};

fn chars(s: &str) -> Vec<char> {
    s.chars().collect()
}

fn kc(name: &str) -> u16 {
    key_code(name).unwrap()
}

fn test_compile(source: &str) -> Result<KeyboardConfig, ConfigError> {
    compile(source)
}

fn pretty_compile(source: &str) -> Result<KeyboardConfig, ConfigError> {
    compile(source)
}

fn layer_of<'a>(config: &'a KeyboardConfig, name: &str) -> &'a ConfigLayer {
    let i = config.find_layer(&chars(name)).unwrap();
    &config.layers[i].1
}

fn code_at(config: &KeyboardConfig, name: &str, rowcol: u16) -> u16 {
    config.code_at(&chars(name), rowcol)
}

fn key_position(config: &KeyboardConfig, sym: &str, index: usize) -> u16 {
    config.get_aliases(&chars(sym)).unwrap()[index]
}

fn global<'a>(config: &'a KeyboardConfig, name: &str) -> Option<&'a GlobalProp> {
    config.global(&chars(name))
}

fn assert_macro(m: Option<&Macro>, exp: Macro) {
    assert_eq!(format!("{:?}", m.expect("should find macro")), format!("{:?}", exp));
}

fn text(v: Vec<char>) -> String {
    v.into_iter().collect()
}

/// The layers of a layout binary, with its dimensions: the reverse of
/// `KeyboardConfig::serialize` for the layers.
fn deserialize(data: &[u16]) -> KeyboardConfig {
    assert!(data.len() > 14);
    assert_eq!(data[0], PROTOCOL_VERSION);

    let mut config = KeyboardConfig::new();

    config.row_count = (data[1] >> 8) as u8;
    config.col_count = (data[1] & 0xff) as u8;
    let layer_count = (data[2] & 0xff) as usize;
    let globals_count = data[4] as usize;

    let data = &data[5 + globals_count..];

    for i in 0..layer_count {
        if i >= 6 {
            let name = format!("layer{}", i);
            config.new_layer(&chars(&name), 0);
        }
        let words = &data[data[i] as usize..data[1 + i] as usize];
        let rows = config.row_count as usize;
        let cols = config.col_count as usize;
        let l = &mut config.layers[i].1;
        l.suffix = words[0] as u8;
        let words = &words[1..];
        if rows * cols == words.len() {
            for row in 0..rows {
                for col in 0..cols {
                    l.set_code(((row << 8) + col) as u16, words[row * cols + col]);
                }
            }
        } else {
            for pair in words.chunks(2) {
                if pair.len() == 2 {
                    l.set_code(pair[0], pair[1]);
                }
            }
        }
    }
    config
}

#[test]
fn firmware_section() {
    let src = r#"
[firmware]

vendor_id = 0x6e0f
product_id = 0x0000
serial_number = rpk:0001

manufacturer = Jacott
product = RPK macropad-3x3
max_power = 450

chip = rp2040
output_pins = [PIN_4, # comment pin 4]
PIN_5, PIN_6]  # comment
input_pins = [PIN_7 PIN_8, PIN_9]
row_is_output = true

max_layout_size = 8 * 1024

# Flash ring file system
flash_size = 2 * 1024 * 1024
fs_base = 0x100000
FS_SIZE = flash_size - fs_base

report_buffer_size = 32
scanner_buffer_size = 16

[matrix:3x3]
0x00 = 7 8 9
"#;

    let config = pretty_compile(src).expect("should allow firmware");

    assert_eq!(
        text(config.firmware_get_str(&chars("output_pins")).unwrap()),
        "[PIN_4, # comment pin 4]\nPIN_5, PIN_6]  # comment"
    );
    assert_eq!(
        text(config.text(config.firmware_get(&chars("fs_size")).unwrap())),
        "flash_size - fs_base"
    );
    let r = config.firmware_get(&chars("output_pins")).unwrap();
    assert_eq!(text(config.trim_value(r)), "[PIN_4, # comment pin 4]\nPIN_5, PIN_6]");
}

#[test]
fn keycode_names() {
    let src = r#"
[matrix:1x4]
\0x00 = \= b c d

[main]

equal =  1
\b = \\
c = mediaplaypause
d = AC_Select_All

[shift]
b = S-\[

"#;

    let config = pretty_compile(src).expect("should allow escaping");
    assert_eq!(code_at(&config, "main", 0x0), kc("1"));
    assert_eq!(code_at(&config, "main", 0x1), kc("\\"));
    assert_eq!(code_at(&config, "main", 0x2), 232);
    assert_eq!(code_at(&config, "main", 0x3), 798);
}

#[test]
fn toggle_layout() {
    let src = r#"
[matrix:1x2]
0x00 = ; b

[main]

; = toggle(shift)
b = toggle(control)

"#;

    let config = pretty_compile(src).expect("should allow toggle");
    assert_eq!(code_at(&config, "main", 0x0), TOGGLE_MIN + 1);
    assert_eq!(code_at(&config, "main", 0x1), TOGGLE_MIN);
}

#[test]
fn dual_action_macro() {
    let src = r#"
[matrix:1x2]
0x00 = a b

[main]

a = dualaction(rightshift, a, 251, 45)
b = dualaction(hold(leftshift a), C-c)
"#;

    let config = pretty_compile(src).expect("should allow overload");

    assert_macro(
        config.macros.first(),
        Macro::TimedDualAction(kc("a"), kc("rightshift"), 251, 45),
    );
    assert_macro(config.macros.get(1), Macro::Hold(vec![kc("leftshift"), kc("a")]));
    assert_macro(config.macros.get(3), Macro::DualAction(MACROS_MIN + 2, MACROS_MIN + 1));
}

#[test]
fn overload_action() {
    // aka dual_action_macro
    let src = r#"
[matrix:1x2]
0x00 = a b

[main]

a = overload(shift, x)
b = overload(control, C-c, 36, 45)
"#;

    let config = pretty_compile(src).expect("should allow overload");

    assert_macro(config.macros.first(), Macro::DualAction(kc("x"), LAYER_MIN + 1));
    assert_macro(config.macros.get(1), Macro::Modifier { keycode: kc("c"), modifiers: 1 });
    assert_macro(
        config.macros.get(2),
        Macro::TimedDualAction(MACROS_MIN + 1, LAYER_MIN, 36, 45),
    );
}

#[test]
fn macro_tap() {
    let src = r#"
[matrix:1x2]
0x00 = a b

[main]

a = macro(hello space W orld!!!)
b = macro(toggle(shift) 123, <abc} toggle(shift))
"#;

    let config = pretty_compile(src).expect("should allow tap macros");

    {
        assert_macro(config.macros.first(), Macro::Modifier { keycode: kc("w"), modifiers: 2 });
        assert_macro(config.macros.get(1), Macro::Modifier { keycode: kc("1"), modifiers: 2 });

        let exp_code = MACROS_MIN + 2;

        assert_eq!(code_at(&config, "main", 0x00), exp_code);

        let mut codes = vec![];
        for c in "hello World".chars() {
            let code = if c == ' ' {
                kc("space")
            } else if c == 'W' {
                MACROS_MIN
            } else {
                kc(c.to_string().as_str())
            };
            codes.push(code);
        }
        for _ in 0..3 {
            codes.push(MACROS_MIN + 1);
        }

        assert_macro(config.macros.get((exp_code - MACROS_MIN) as usize), Macro::Tap(codes));
    }

    {
        let exp_code = MACROS_MIN + 5;

        assert_eq!(code_at(&config, "main", 0x01), exp_code);

        let codes = vec![1793, 30, 31, 32, 54, 4099, 4, 5, 6, 4100, 1793];

        assert_macro(config.macros.get((exp_code - MACROS_MIN) as usize), Macro::Tap(codes));
    }
}

#[test]
fn macro_tap_hold_release() {
    let src = r#"
[matrix:1x2]
0x00 = a b

[main]

a = macro(hold(aab) release(ba))
b = macro(a hold(aab) release(ba))
"#;

    let config = pretty_compile(src).expect("should allow hold/release macros");

    assert_macro(config.macros.first(), Macro::Hold(vec![4, 4, 5]));
    assert_macro(config.macros.get(1), Macro::Release(vec![5, 4]));

    assert_eq!(code_at(&config, "main", 0x00), MACROS_MIN + 2);
    assert_eq!(code_at(&config, "main", 0x01), MACROS_MIN + 3);

    assert_macro(
        config.macros.get(2),
        Macro::HoldRelease { hold: MACROS_MIN, release: MACROS_MIN + 1 },
    );
    assert_macro(config.macros.get(3), Macro::Tap(vec![4, MACROS_MIN, MACROS_MIN + 1]));
}

#[test]
fn compiler_test_modifier_macros() {
    let src = r#"
[matrix:1x2]
0x00 = a b

[main]

a = C-x
b = S-G-z
"#;

    let config = pretty_compile(src).expect("should allow modifier_macros");

    let exp_code = MACROS_MIN;

    assert_eq!(code_at(&config, "main", 0x00), exp_code);
    assert_eq!(code_at(&config, "main", 0x01), exp_code + 1);

    assert_macro(
        config.macros.get((exp_code - MACROS_MIN) as usize),
        Macro::Modifier { keycode: kc("x"), modifiers: 1 },
    );
    assert_macro(
        config.macros.get((exp_code + 1 - MACROS_MIN) as usize),
        Macro::Modifier { keycode: kc("z"), modifiers: 10 },
    );

    let codes = text_to_binary(src).unwrap();

    let m0 = MACROS_MIN;
    let m1 = m0 + 1;

    assert_eq!(
        &codes,
        &[
            1, 258, 6, 2, 0, 9, 10, 11, 12, 13, 14, 17, 19, 21, 1, 2, 4, 8, 64, 0, m0, m1, 256, 27,
            2560, 29
        ]
    );
}

#[test]
fn compiling_to_binary() {
    let codes = text_to_binary(
        r#"
[matrix:3x3]

0x00 = 7 8 9
0x10 = 4 5 6
0x20 = 1 2 3

[main]

3 = layer(shift)

[shift]

7 = a
8 = b
9 = c

4 = d
5 = e
6 = f

"#,
    )
    .unwrap();

    assert_eq!(
        &codes,
        &[
            1, 771, 6, 0, 0, 7, 8, 18, 19, 20, 21, 31, 1, 2, 4, 5, 6, 7, 8, 9, 0, 0, 0, 4, 8, 64,
            0, 36, 37, 38, 33, 34, 35, 30, 31, 1537
        ]
    );
}

#[test]
fn aliases() {
    let src = r#"
[aliases]

0x00 = a # can use 'a' for key_position 0,0
0x23 = b
0x43 = a
"#;

    let config = test_compile(src).unwrap();

    assert_eq!(key_position(&config, "a", 1), 0x0403);
    assert_eq!(key_position(&config, "b", 0), 0x0203);
}

#[test]
fn matrix() {
    let src = r#"
[matrix:3x3]

0x00 = 7 8 9
0x10 = 4      # can split rows up
0x11 = 5 6
0x20 = 1 2 3

[aliases]

0x21 = a
"#;

    let config = test_compile(src).unwrap();

    assert_eq!(key_position(&config, "a", 0), 0x201);
    assert_eq!(key_position(&config, "2", 0), 0x201);
    assert_eq!(key_position(&config, "6", 0), 0x102);

    assert_eq!(code_at(&config, "main", 0x102), 0x23);
}

#[test]
fn layer() {
    let src = r#"
[matrix:2x2]
0x00 = a b
0x10 = c d

[my_layer:S]
a = z
"#;

    let config = pretty_compile(src).unwrap();

    let l = layer_of(&config, "my_layer");

    assert_eq!(l.suffix, 2);
    assert_eq!(l.code_at(0), 29);
}

#[test]
fn invalid_alias_multi_assign() {
    let src = r#"
[matrix:2x2]
0x00 = a b
0x10 = c d

[aliases]

a = shift foo
"#;

    let config = test_compile(src).err().unwrap();

    assert_eq!(config.message, "Only one value may be assigned");
    assert_eq!(config.span.unwrap(), 58..61);
}

#[test]
fn invalid_layer_multi_assign() {
    let src = r#"
[matrix:2x2]
0x00 = a b
0x10 = c d

[aliases]

a = shift
b = shift

[my_layer]
shift = x y
c = 1 2
"#;

    let config = test_compile(src).err().unwrap();

    assert_eq!(config.message, "Only one value may be assigned to an multi-positioned alias");
    assert_eq!(config.span.unwrap(), 90..91);
}

#[test]
fn invalid_assign() {
    let src = r#"
[my_layer]
shift 1
a 2
"#;

    let config = test_compile(src).err().unwrap();

    assert_eq!(config.message, "Missing =");
    assert_eq!(config.span.unwrap(), 12..18);
}

#[test]
fn compiler_test_setlayout() {
    let src = r#"
[matrix:2x2]
0x00 = a b
0x10 = c d

[main]

a = setlayout(my_layout)

[my_layout]

0x00 = 1 2
c = 3 4
"#;

    let config = pretty_compile(src).unwrap();

    assert_eq!(layer_of(&config, "main").code_at(0x0000), key_range::SET_LAYOUT_MIN + 6);
    let l = layer_of(&config, "my_layout");

    assert_eq!(l.code_at(0x0000), 30);
    assert_eq!(l.code_at(0x0001), 31);
    assert_eq!(l.code_at(0x0100), 32);
    assert_eq!(l.code_at(0x0101), 33);
}

#[test]
fn oneshot() {
    let src = r#"
[matrix:2x2]
0x00 = a b
0x10 = c d

[main]

a = oneshot(my_layer)
b = oneshot(l2)

[my_layer]
a = z
[l2]
a = 2
"#;

    let config = pretty_compile(src).unwrap();

    let l = layer_of(&config, "main");

    assert_eq!(l.code_at(0), key_range::ONESHOT + 6);
    assert_eq!(l.code_at(1), key_range::ONESHOT + 7);
}

#[test]
fn layer_action() {
    let src = r#"
[matrix:2x3]
0x00 = a b leftshift
0x10 = c d rightshift

[main]
a = layer(my_layer)

[shift]

c = 0
a = z

[my_layer]
b = 1
"#;

    let config = test_compile(src).unwrap();

    assert_eq!(layer_of(&config, "main").code_at(0x0000), LAYER_MIN + 6);

    let l = layer_of(&config, "my_layer");

    assert_eq!(l.suffix, 0);
    assert_eq!(l.code_at(0x0001), 30);

    let bytes = config.serialize();

    assert_eq!(bytes.len(), 32);

    assert_eq!(
        &bytes,
        &[
            1, 515, 7, 0, 0, 8, 9, 14, 15, 16, 17, 24, 27, 1, 2, 0, 29, 256, 39, 4, 8, 64, 0, 1542,
            5, 225, 6, 7, 229, 0, 1, 30
        ]
    );

    let c2 = deserialize(&bytes);

    assert_eq!(c2.row_count, 2);
    assert_eq!(c2.col_count, 3);

    assert_eq!(c2.next_layer, 7);
    assert_eq!(c2.layers.len(), 7);

    assert_eq!(layer_of(&c2, "main").code_at(0x0000), LAYER_MIN + 6);

    assert_eq!(layer_of(&c2, "layer6").code_at(0x0001), kc("1"));
}

#[test]
fn bad_layer_modifier() {
    let src = r#"
[matrix:2x2]
0x00 = a b
0x10 = c d

[main]

c = down # comment

[my_layer:S]
a = z

[my_layer:S-C]

b = x

"#;

    let err = test_compile(src).err().unwrap();

    assert_eq!(&err.message, "layer suffix may not be changed; S != S-C");
    assert_eq!(err.span.as_ref().unwrap(), &(86..98), "error was {:?}", &err);
}

#[test]
fn invalid_layer_suffix() {
    let src = r#"
[matrix:2x2]
0x00 = a b
0x10 = c d

[main]

c = down # comment

[my_layer:S:C]

a = z

"#;

    let err = test_compile(src).err().unwrap();

    assert_eq!(&err.message, "Invalid layer suffix 'S:C'");
    assert_eq!(err.span.as_ref().unwrap(), &(75..78), "error was {:?}", &err);
}

#[test]
fn compiler_test_unicode() {
    let src = r#"
[global]

unicode_prefix = C-S-u
unicode_suffix = macro(return delay(5))

[matrix:2x2]
0x00 = a b
0x10 = c d

[emoji]
a = unicode(1f195)
b = macro(hello space 🥵🌏)

[main]

c = layer(nav)
d = layer(emoji)

[nav]

a = left

"#;

    let config = pretty_compile(src).unwrap();

    let mut iter = config.macros.iter();

    assert_macro(iter.next(), Macro::Modifier { keycode: kc("u"), modifiers: 3 });
    assert_macro(iter.next(), Macro::Delay(5));
    assert_macro(iter.next(), Macro::Tap(vec![40, MACROS_MIN + 1]));
    assert_macro(
        iter.next(),
        Macro::Tap(vec![MACROS_MIN, kc("1"), kc("f"), kc("1"), kc("9"), kc("5"), MACROS_MIN + 2]),
    );
    assert_macro(
        iter.next(),
        Macro::Tap(vec![MACROS_MIN, kc("1"), kc("f"), kc("9"), kc("7"), kc("5"), MACROS_MIN + 2]),
    );
    assert_macro(
        iter.next(),
        Macro::Tap(vec![MACROS_MIN, kc("1"), kc("f"), kc("3"), kc("0"), kc("f"), MACROS_MIN + 2]),
    );
    assert_macro(
        iter.next(),
        Macro::Tap(vec![
            kc("h"),
            kc("e"),
            kc("l"),
            kc("l"),
            kc("o"),
            kc("space"),
            MACROS_MIN + 4,
            MACROS_MIN + 5,
        ]),
    );
}

fn compile_global(name: &str, value: &str) -> Result<KeyboardConfig, ConfigError> {
    let src = format!("[global]\n{} = {}\n", name, value);
    test_compile(src.as_str())
}

fn assert_timeout(g: Option<&GlobalProp>, value: u16, min: u16, max: u16, dp: u8) {
    match &g.unwrap().spec {
        GlobalType::Timeout { value: v, min: lo, max: hi, dp: d } => {
            assert_eq!((*v, *lo, *hi, *d), (value, min, max, dp));
        }
        other => panic!("expected a timeout, got {:?}", other),
    }
}

#[test]
fn global_dual_action_timeout() {
    let config = test_compile("").unwrap();

    assert!(global(&config, "dual_action_timeout").is_none());

    let config = compile_global("dual_action_timeout", "500").unwrap();
    assert_timeout(global(&config, "dual_action_timeout"), 500, 0, 5000, 0);

    let bin = config.serialize();

    assert_eq!(bin, [1, 0, 6, 0, 2, 3, 500, 7, 8, 9, 10, 11, 12, 13, 1, 2, 4, 8, 64, 0]);
}

#[test]
fn global_dual_action_timeout2() {
    let config = test_compile("").unwrap();

    assert!(global(&config, "dual_action_timeout2").is_none());

    let config = compile_global("dual_action_timeout2", "50").unwrap();
    assert_timeout(global(&config, "dual_action_timeout2"), 50, 0, 5000, 0);

    let bin = config.serialize();

    assert_eq!(bin, [1, 0, 6, 0, 2, 4, 50, 7, 8, 9, 10, 11, 12, 13, 1, 2, 4, 8, 64, 0]);
}

#[test]
fn global_debounce_settle_time() {
    let config = test_compile("").unwrap();

    assert!(global(&config, "debounce_settle_time").is_none());

    let config = compile_global("debounce_settle_time", "23.5").unwrap();
    assert_timeout(global(&config, "debounce_settle_time"), 235, 1, 250, 1);

    let bin = config.serialize();

    assert_eq!(bin, [1, 0, 6, 0, 2, 5, 235, 7, 8, 9, 10, 11, 12, 13, 1, 2, 4, 8, 64, 0]);
}

#[test]
fn invalid_global_name() {
    let err = compile_global("overload_tap_tmeout", "500").err().unwrap();

    assert_eq!(err.message, "Invalid global 'overload_tap_tmeout'");
    assert_eq!(err.span, Some(9..28));
}

#[test]
fn defaults() {
    let src = r#"
[matrix:2x2]
0x00 = a b
0x10 = c d
"#;

    let config = test_compile(src).unwrap();

    for (i, name) in ["control", "shift", "alt", "gui", "altgr"].into_iter().enumerate() {
        let v = if name == "altgr" { 0x40 } else { 1 << i };
        assert_eq!(layer_of(&config, name).suffix, v);
    }
}

#[test]
fn text_before_any_section_is_refused() {
    match compile("a = b\n") {
        Ok(_) => panic!("text before a section should be refused"),
        Err(err) => assert_eq!(err.message, "expected '['"),
    }
    assert!(text_to_binary("x\n").is_err());
}

#[test]
fn comments_without_sections_compile() {
    let config = compile("# only a comment\n  \n").unwrap();
    assert_eq!(config.layers.len(), 6);
    assert_eq!(config.macros.len(), 0);
    assert!(text_to_binary("# note\n").is_ok());
}

#[test]
fn long_format_names_file_line_and_source() {
    let e = ConfigError::new("x".to_string(), 4..5);
    assert_eq!(e.long_format("f.rpk", "ab\ncd"), "error: x \n   --> f.rpk:2:2\n  2 | cd\n");
}
