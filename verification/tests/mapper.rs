use rpk::config::keycodes::key_code;
use rpk::config::parser::text_to_binary;
use rpk::dual_action::DualActionTimer;
use rpk::globals;
use rpk::key_event::KeyEvent;
use rpk::key_range::{LAYER_MIN, MACROS_MIN};
use rpk::macros::{KeyPlusMod, Macro};
use rpk::mapper::{FirmwareRequest, Mapper};
use rpk::scan_key::{ScanKey, TimedScanKey};

const KEY_UP: usize = 0;
const KEY_DOWN: usize = 1;

fn kc(c: &str) -> u16 {
    match key_code(c) {
        Some(kc) => kc,
        None => panic!("Unknown key mnemonic: {c:?}"),
    }
}

fn setup<const R: usize, const C: usize>(src: &str) -> Mapper<R, C, 200, 10> {
    let mut t = Mapper::<R, C, 200, 10>::new();
    let layout = text_to_binary(src).unwrap();
    t.load_layout(&layout).unwrap();
    t
}

fn press<const R: usize, const C: usize>(t: &mut Mapper<R, C, 200, 10>, row: u8, col: u8, down: bool) {
    let key = ScanKey::new(row, col, down);
    let now = t.now;
    t.key_switch(TimedScanKey(key, now));
}

fn tap<const R: usize, const C: usize>(t: &mut Mapper<R, C, 200, 10>, row: u8, col: u8) {
    press(t, row, col, true);
    press(t, row, col, false);
}

fn assert_read<const R: usize, const C: usize>(t: &mut Mapper<R, C, 200, 10>, e1: usize, e2: &str) {
    match t.take_report() {
        Some(ans) => assert_eq!(ans, KeyEvent::basic(kc(e2) as u8, e1 == 1)),
        None => panic!("No key press!"),
    }
}

fn assert_event<const R: usize, const C: usize>(t: &mut Mapper<R, C, 200, 10>, e: KeyEvent) {
    match t.take_report() {
        Some(ans) => assert_eq!(ans, e),
        None => panic!("Expected key event"),
    }
}

fn assert_none<const R: usize, const C: usize>(t: &mut Mapper<R, C, 200, 10>) {
    if let Some(ans) = t.take_report() {
        panic!("Unexpected key event {:?}", ans);
    }
}

#[test]
fn large_keyboard() {
    let mut t = setup::<6, 14>(
        r#"
[matrix:6x14]

0x00 = u0  u1 2  3  4  5   f1     f5   6   7  8  u2 u3 u4
0x10 = esc 1  w  e  r  t   f2     f6   y   u  i  o  0  f9
0x20 = `   q  s  d  f  g   f3     f7   h   j  k  l  p  f10
0x30 = -   a  x  c  v  b   f4     f8   n   m  ,  .  \; f11
0x40 = =   z  la lc ls ent tab    bksp spc rs rc ra /  f12
0x50 = \[   ]  \\ \' lg pgup pgdn  del  mnu rg left down up right

[main]

apostrophe              = layer(layer5)

[layer5]

w = G-7
e = G-8
r = G-9

s = G-4
d = G-5
f = G-6

x = G-1
c = G-2
v = G-3

"#,
    );
    press(&mut t, 5, 3, true);
    press(&mut t, 3, 4, true);
    assert_event(&mut t, KeyEvent::PendingModifiers(8, true));
    assert_read(&mut t, KEY_DOWN, "3");
}

#[test]
fn reset() {
    let mut t = setup::<2, 3>(
        r#"
[matrix:2x3]

0x00 = a b c
0x10 = e f g

[main]

c = reset_keyboard
"#,
    );
    press(&mut t, 0, 2, true);

    assert_eq!(t.take_firmware_request(), FirmwareRequest::Idle);

    press(&mut t, 0, 2, false);

    assert_eq!(t.take_firmware_request(), FirmwareRequest::Reset);
}

#[test]
fn reset_to_usb_boot() {
    let mut t = setup::<2, 3>(
        r#"
[matrix:2x3]

0x00 = a b c
0x10 = e f g

[main]

c = reset_to_usb_boot
"#,
    );
    press(&mut t, 0, 2, true);

    assert_eq!(t.take_firmware_request(), FirmwareRequest::Idle);

    press(&mut t, 0, 2, false);

    assert_eq!(t.take_firmware_request(), FirmwareRequest::ResetToUsbBoot);
}

#[test]
fn toggle_layer() {
    let mut t = setup::<2, 3>(
        r#"
[matrix:2x3]

0x00 = a b c
0x10 = e f g

[main]

a = toggle(gui)


"#,
    );
    press(&mut t, 0, 0, true);

    assert_read(&mut t, KEY_DOWN, "leftgui");

    press(&mut t, 0, 0, false);

    assert_none(&mut t);

    press(&mut t, 0, 0, true);

    assert_read(&mut t, KEY_UP, "leftgui");
    press(&mut t, 0, 0, false);

    assert_none(&mut t);
}

#[test]
fn mapper_test_setlayout() {
    let mut t = setup::<2, 3>(
        r#"
[matrix:2x3]

0x00 = a b c
0x10 = e f g

[main]

a = setlayout(mylayout)

[mylayout]

0x00 = 1 2 3
0x10 = 4 5 6

"#,
    );
    tap(&mut t, 0, 0);

    assert_none(&mut t);

    press(&mut t, 0, 0, true);

    assert_read(&mut t, KEY_DOWN, "1");
    press(&mut t, 0, 0, false);
    assert_read(&mut t, KEY_UP, "1");

    tap(&mut t, 1, 2);

    assert_read(&mut t, KEY_DOWN, "6");
    assert_read(&mut t, KEY_UP, "6");
    assert_none(&mut t);
}

#[test]
fn onshot() {
    let mut t = setup::<2, 3>(
        r#"
[matrix:2x3]

0x00 = a b c
0x10 = e f g

[main]

a = oneshot(shift)
"#,
    );
    press(&mut t, 0, 0, true);
    assert_read(&mut t, KEY_DOWN, "leftshift");

    press(&mut t, 0, 0, false);
    assert_none(&mut t);

    tap(&mut t, 0, 1);

    assert_read(&mut t, KEY_DOWN, "b");
    assert_read(&mut t, KEY_UP, "b");
    assert_read(&mut t, KEY_UP, "leftshift");

    assert_none(&mut t);
}

#[test]
fn activate_layer() {
    let mut t = setup::<2, 3>(
        r#"
[matrix:2x3]

0x00 = a b c
0x10 = e f g

[main]

a = layer(layer_1)

[layer_1]

f = 1
"#,
    );
    press(&mut t, 0, 0, true);
    press(&mut t, 1, 1, true);

    assert_read(&mut t, KEY_DOWN, "1");

    press(&mut t, 1, 1, false);

    assert_read(&mut t, KEY_UP, "1");

    press(&mut t, 0, 0, false);

    press(&mut t, 1, 1, true);
    assert_read(&mut t, KEY_DOWN, "f");
}

#[test]
fn mapper_test_modifier_macros() {
    let mut t = setup::<2, 3>(
        r#"
[matrix:2x3]

0x00 = a b c
0x10 = e f g

[main]

c = C-S-G-j
g = C-S-m


"#,
    );
    press(&mut t, 1, 2, true);
    assert_event(&mut t, KeyEvent::PendingModifiers(3, true));
    assert_read(&mut t, KEY_DOWN, "m");

    press(&mut t, 1, 2, false);
    assert_read(&mut t, KEY_UP, "m");
    assert_event(&mut t, KeyEvent::Modifiers(3, false));
}

#[test]
fn layer_with_mods() {
    let mut t = setup::<2, 3>(
        r#"
[matrix:2x3]

0x00 = a b c
0x10 = e f g

[main]

a = layer(shift)
b = rightshift
c = rightalt

[shift]

f = 1

[altgr]

e = 2
"#,
    );
    // generic layer change
    press(&mut t, 0, 0, true);
    assert_read(&mut t, KEY_DOWN, "leftshift");

    // not mapped shift unchanged
    press(&mut t, 1, 2, true);
    assert_read(&mut t, KEY_DOWN, "g");
    press(&mut t, 1, 2, false);
    assert_read(&mut t, KEY_UP, "g");

    // f mapped to 1 shift temporary released
    press(&mut t, 1, 1, true);
    assert_event(&mut t, KeyEvent::PendingModifiers(2, false));
    assert_read(&mut t, KEY_DOWN, "1");
    press(&mut t, 1, 1, false);
    assert_read(&mut t, KEY_UP, "1");
    assert_read(&mut t, KEY_DOWN, "leftshift");

    press(&mut t, 0, 0, false);
    assert_read(&mut t, KEY_UP, "leftshift");

    press(&mut t, 1, 1, true);

    assert_read(&mut t, KEY_DOWN, "f");

    // modifier rightshift key press change
    press(&mut t, 0, 1, true);
    assert_read(&mut t, KEY_DOWN, "rightshift");

    press(&mut t, 1, 1, true);

    assert_read(&mut t, KEY_DOWN, "1");

    press(&mut t, 0, 1, false);
    assert_read(&mut t, KEY_UP, "rightshift");

    // modifier altgr key press change
    press(&mut t, 0, 2, true);
    assert_read(&mut t, KEY_DOWN, "rightalt");
    press(&mut t, 1, 0, true);

    assert_event(&mut t, KeyEvent::PendingModifiers(64, false));
    assert_read(&mut t, KEY_DOWN, "2");

    press(&mut t, 0, 2, false);
    assert_none(&mut t);
    press(&mut t, 1, 0, false);
    assert_read(&mut t, KEY_UP, "2");
    assert_none(&mut t);
}

type T23 = Mapper<2, 3, 200, 10>;

fn advance(t: &mut T23, now: &mut u64, d: u64) {
    *now += d;
    t.now = *now;
    t.check_time();
}

#[test]
fn clear_all() {
    let mut t = setup::<2, 3>(
        r#"
[matrix:2x3]

0x00 = a b c
0x10 = e f g

[main]

a = overload(l2, hold(abcd leftshift mouse1 mouse2 hold(123 clear_all) 789))
b = S-mouse1
g = C-g

[l2]

a = q
"#,
    );
    press(&mut t, 1, 2, true);
    assert_event(&mut t, KeyEvent::PendingModifiers(1, true));
    tap(&mut t, 0, 0);

    assert_read(&mut t, KEY_DOWN, "g");
    assert_read(&mut t, KEY_DOWN, "a");
    assert_read(&mut t, KEY_DOWN, "b");
    assert_read(&mut t, KEY_DOWN, "c");
    assert_read(&mut t, KEY_DOWN, "d");
    assert_read(&mut t, KEY_DOWN, "leftshift");

    assert_event(&mut t, KeyEvent::mouse_button(1));

    assert_eq!(t.layout.macro_stack(), 194);
    assert_eq!(t.active_actions[1 * 3 + 2], KeyPlusMod(4100, 0));
    t.check_time();
    assert_eq!(t.active_actions[1 * 3 + 2], KeyPlusMod(0, 0));

    assert_event(&mut t, KeyEvent::Clear);

    assert_eq!(t.layout.macro_stack(), 200);
    assert_eq!(t.mouse.next_event_time(), u64::MAX);
    assert!(t.dual_action.is_no_timer());
    t.check_time();

    assert_none(&mut t);

    press(&mut t, 0, 1, true);

    t.check_time();

    assert_event(&mut t, KeyEvent::PendingModifiers(2, true));
    assert_event(&mut t, KeyEvent::mouse_button(1));
}

#[test]
fn clear_layers() {
    let mut t = setup::<2, 3>(
        r#"
[matrix:2x3]

0x00 = a b c
0x10 = e f g

[main]

a = hold(leftshift leftalt layer(l2) clear_layers)

[l2]

a = q
"#,
    );
    press(&mut t, 0, 0, true);
    assert_read(&mut t, KEY_DOWN, "leftshift");
    assert_read(&mut t, KEY_DOWN, "leftalt");

    assert_event(&mut t, KeyEvent::Modifiers(0, false));
    assert!(!t.pop_layer(1));
    assert!(!t.pop_layer(2));
    assert!(!t.pop_layer(6));

    t.check_time();

    press(&mut t, 0, 0, false);
    assert_none(&mut t);
}

#[test]
fn stop_active() {
    let mut t = setup::<2, 3>(
        r#"
[matrix:2x3]

0x00 = a b c
0x10 = e f g

[main]

a = hold(leftshift leftalt layer(l2) stop_active 12)

[l2]

a = q
"#,
    );
    press(&mut t, 0, 0, true);
    assert_read(&mut t, KEY_DOWN, "leftshift");
    assert_read(&mut t, KEY_DOWN, "leftalt");

    assert_event(&mut t, KeyEvent::Clear);
    assert!(!t.pop_layer(1));
    assert!(!t.pop_layer(2));
    assert!(t.pop_layer(6)); // we are still on

    assert_read(&mut t, KEY_DOWN, "1");
    assert_read(&mut t, KEY_DOWN, "2");

    t.check_time();

    press(&mut t, 0, 0, false);
    assert_none(&mut t);
}

#[test]
fn globals() {
    let t = setup::<2, 3>(
        r#"
[global]

dual_action_timeout = 500
dual_action_timeout2 = 50
debounce_settle_time = 12.3

[matrix:2x3]

0x00 = a b c
0x10 = e f g
"#,
    );
    assert_eq!(t.layout.global(globals::DUAL_ACTION_TIMEOUT as usize), 500);
    assert_eq!(t.layout.global(globals::DUAL_ACTION_TIMEOUT2 as usize), 50);
    assert_eq!(t.layout.global(globals::DEBOUNCE_SETTLE_TIME as usize), 123);

    let debounce = t.debounce_setting();

    assert_eq!(debounce, 123);
}

#[test]
fn multi_overload_in_macro() {
    let mut t = setup::<2, 3>(
        r#"
[matrix:2x3]

0x00 = a b c
0x10 = e f g

[main]
e = macro(hold(overload(shift, e) overload(control, e)) release(layer(control) layer(shift)))
"#,
    );
    let mut now = 100;

    advance(&mut t, &mut now, 0);

    press(&mut t, 1, 0, true);

    assert_read(&mut t, KEY_DOWN, "leftshift");
    assert_none(&mut t);

    advance(&mut t, &mut now, 180);

    assert_read(&mut t, KEY_DOWN, "leftcontrol");

    press(&mut t, 1, 0, false);

    assert_read(&mut t, KEY_UP, "leftcontrol");
    assert_read(&mut t, KEY_UP, "leftshift");
    assert_none(&mut t);
}

#[test]
fn overload_bug() {
    let mut t = setup::<2, 3>(
        r#"
[matrix:2x3]

0x00 = a b c
0x10 = e f g

[main]

e = overload(l1, e)
g = overload(l2, g)

[l1]

f = 1

[l2]

f = 2
"#,
    );
    const TIMEOUT: u64 = 180;
    let mut now = 1234;
    advance(&mut t, &mut now, 0);

    press(&mut t, 1, 0, true);
    assert_eq!(t.dual_action.wait_until() - TIMEOUT, now);
    advance(&mut t, &mut now, 40);
    press(&mut t, 1, 2, true);
    let gkey = now;
    assert_eq!(t.layout.find_code(1, 1).unwrap().0, kc("f"));

    advance(&mut t, &mut now, 200);
    assert_eq!(t.layout.find_code(1, 1).unwrap().0, kc("1"));

    assert_none(&mut t);
    assert!(t.run_memo());
    assert_eq!(t.layout.find_code(1, 1).unwrap().0, kc("1"));
    assert_none(&mut t);
    assert_eq!(t.dual_action.wait_until() - TIMEOUT, gkey);

    press(&mut t, 1, 0, false);
    assert_none(&mut t);

    advance(&mut t, &mut now, 130);
    assert_eq!(t.layout.find_code(1, 1).unwrap().0, kc("2"));

    advance(&mut t, &mut now, 130);
    assert_none(&mut t);

    press(&mut t, 1, 2, false);
    assert!(t.run_memo());
    assert_none(&mut t);
    assert_eq!(t.layout.find_code(1, 1).unwrap().0, kc("f"));

    press(&mut t, 1, 1, true);
    assert_read(&mut t, KEY_DOWN, "f");
    assert_none(&mut t);
}

#[test]
fn timed_dualaction() {
    let mut t = setup::<2, 3>(
        r#"
[matrix:2x3]

0x00 = a b c
0x10 = e f g

[main]

c = dualaction(leftshift, c, 252, 60)
g = overload(alt, g, 100)


"#,
    );
    let mut now = 100;
    advance(&mut t, &mut now, 0);

    // hold timeout
    press(&mut t, 1, 2, true);
    assert_none(&mut t);

    advance(&mut t, &mut now, 100);

    assert_read(&mut t, KEY_DOWN, "leftalt");
    assert_none(&mut t);

    press(&mut t, 1, 2, false);

    assert_read(&mut t, KEY_UP, "leftalt");
    assert_none(&mut t);

    press(&mut t, 0, 2, true);
    advance(&mut t, &mut now, 251);
    assert_none(&mut t);

    advance(&mut t, &mut now, 1);
    assert_read(&mut t, KEY_DOWN, "leftshift");
    assert_none(&mut t);

    press(&mut t, 0, 2, false);

    assert_read(&mut t, KEY_UP, "leftshift");
    assert_none(&mut t);

    // tap timeout
    press(&mut t, 1, 2, true);
    press(&mut t, 1, 0, true);
    press(&mut t, 1, 0, false);
    advance(&mut t, &mut now, 19);
    assert_none(&mut t);

    advance(&mut t, &mut now, 1);

    assert_read(&mut t, KEY_DOWN, "leftalt");
    assert_none(&mut t);

    press(&mut t, 1, 2, false);

    assert_read(&mut t, KEY_UP, "leftalt");
    assert_none(&mut t);

    press(&mut t, 0, 2, true);
    press(&mut t, 1, 0, true);
    press(&mut t, 1, 0, false);
    advance(&mut t, &mut now, 59);
    assert_none(&mut t);

    advance(&mut t, &mut now, 1);
    assert_read(&mut t, KEY_DOWN, "leftshift");
    assert_none(&mut t);

    press(&mut t, 0, 2, false);

    assert_read(&mut t, KEY_UP, "leftshift");
    assert_none(&mut t);
}

#[test]
fn overload() {
    let mut t = setup::<2, 3>(
        r#"
[matrix:2x3]

0x00 = a b c
0x10 = e f g

[main]

c = overload(shift, C-c)
g = C-S-m


"#,
    );
    let mut now = 100;
    advance(&mut t, &mut now, 0);

    // hold-dual + tap + hold, release-dual, release
    {
        press(&mut t, 0, 2, true);
        press(&mut t, 1, 0, true);
        press(&mut t, 1, 0, false);
        press(&mut t, 1, 1, true);

        assert_read(&mut t, KEY_DOWN, "leftshift");
        assert!(t.run_memo());
        assert_read(&mut t, KEY_DOWN, "e");
        assert!(t.run_memo());
        assert_read(&mut t, KEY_UP, "e");
        assert!(t.run_memo());
        assert_read(&mut t, KEY_DOWN, "f");

        assert!(!t.run_memo());
        assert_none(&mut t);

        press(&mut t, 0, 2, false);
        press(&mut t, 1, 1, false);

        assert_read(&mut t, KEY_UP, "leftshift");
        assert_read(&mut t, KEY_UP, "f");

        assert!(!t.run_memo());
        assert_none(&mut t);
    }

    // one-down + tap, one-up
    {
        press(&mut t, 1, 0, true);
        press(&mut t, 0, 2, true);
        press(&mut t, 1, 0, false);

        assert_read(&mut t, KEY_DOWN, "e");
        advance(&mut t, &mut now, 10);
        advance(&mut t, &mut now, 10);

        assert_none(&mut t);

        advance(&mut t, &mut now, 180);

        assert_read(&mut t, KEY_DOWN, "leftshift");
        assert!(t.run_memo());
        assert_read(&mut t, KEY_UP, "e");
        assert_none(&mut t);

        press(&mut t, 0, 2, false);

        assert_read(&mut t, KEY_UP, "leftshift");
        assert_none(&mut t);
    }

    // hold + one, timeout
    {
        press(&mut t, 0, 2, true);
        press(&mut t, 1, 0, true);
        assert_none(&mut t);

        advance(&mut t, &mut now, 180);

        assert_read(&mut t, KEY_DOWN, "leftshift");
        assert_none(&mut t);
        assert!(t.run_memo());
        assert_read(&mut t, KEY_DOWN, "e");
        assert_none(&mut t);

        press(&mut t, 0, 2, false);
        press(&mut t, 1, 0, false);

        assert_read(&mut t, KEY_UP, "leftshift");
        assert_read(&mut t, KEY_UP, "e");
        assert_none(&mut t);
    }

    // hold
    {
        assert!(matches!(t.dual_action, DualActionTimer::NoDual));
        assert_eq!(t.dual_action.wait_until(), u64::MAX);
        press(&mut t, 0, 2, true);
        assert_none(&mut t);

        assert_eq!(t.wait_time, t.dual_action.wait_until());
        assert_eq!(t.wait_time, now + 180);
        let DualActionTimer::Wait { tap, hold, count: 2, .. } = &t.dual_action else {
            panic!("expected to be in wait 2");
        };
        assert_eq!(*tap, MACROS_MIN);
        assert_eq!(*hold, LAYER_MIN + 1,);

        assert_none(&mut t);

        advance(&mut t, &mut now, 180);

        assert_eq!(t.wait_time, u64::MAX);
        assert!(t.dual_action.is_no_timer());
        assert_read(&mut t, KEY_DOWN, "leftshift");

        press(&mut t, 0, 2, false);

        assert_read(&mut t, KEY_UP, "leftshift");

        assert_eq!(t.wait_time, u64::MAX);
        assert!(t.dual_action.is_no_timer());
    }

    // tap
    {
        press(&mut t, 0, 2, true);
        advance(&mut t, &mut now, 170);
        press(&mut t, 0, 2, false);
        advance(&mut t, &mut now, 0);

        assert_event(&mut t, KeyEvent::PendingModifiers(1, true));
        assert_read(&mut t, KEY_DOWN, "c");
        assert!(t.run_memo());
        assert_read(&mut t, KEY_UP, "c");
        assert_read(&mut t, KEY_UP, "leftcontrol");

        advance(&mut t, &mut now, 180);

        assert_none(&mut t);
    }

    // hold + one, release-hold
    {
        press(&mut t, 0, 2, true);
        press(&mut t, 1, 0, true);
        press(&mut t, 0, 2, false);

        assert_event(&mut t, KeyEvent::PendingModifiers(1, true));
        assert_read(&mut t, KEY_DOWN, "c");
        assert_none(&mut t);
        assert!(t.run_memo());
        assert_read(&mut t, KEY_DOWN, "e");

        assert_none(&mut t);
        assert!(t.run_memo());
        assert_read(&mut t, KEY_UP, "c");
        assert_read(&mut t, KEY_UP, "leftcontrol");

        press(&mut t, 1, 0, false);
        assert_read(&mut t, KEY_UP, "e");
    }

    // hold + tap-one
    {
        press(&mut t, 0, 2, true);
        assert_eq!(t.memo_count, 0);
        press(&mut t, 1, 0, true);
        assert_eq!(t.memo_count, 1);
        press(&mut t, 1, 0, false);
        assert_eq!(t.memo_count, 2);

        advance(&mut t, &mut now, 0);
        assert_none(&mut t);

        advance(&mut t, &mut now, 20);

        assert_read(&mut t, KEY_DOWN, "leftshift");
        assert_none(&mut t);
        assert!(t.run_memo());
        assert_read(&mut t, KEY_DOWN, "e");
        assert_none(&mut t);
        assert!(t.dual_action.is_no_timer());
        assert!(t.run_memo());

        assert_read(&mut t, KEY_UP, "e");
        assert_none(&mut t);

        press(&mut t, 0, 2, false);
        assert_read(&mut t, KEY_UP, "leftshift");
    }

    // hold + one + two
    {
        press(&mut t, 0, 2, true);
        press(&mut t, 1, 0, true);
        press(&mut t, 1, 1, true);
        advance(&mut t, &mut now, 0);
        assert_none(&mut t);
        advance(&mut t, &mut now, 20);

        assert_read(&mut t, KEY_DOWN, "leftshift");
        assert_none(&mut t);
        assert!(t.run_memo());
        assert_read(&mut t, KEY_DOWN, "e");
        assert_none(&mut t);
        assert!(t.run_memo());
        assert_read(&mut t, KEY_DOWN, "f");
        assert_none(&mut t);

        press(&mut t, 0, 2, false);
        assert_read(&mut t, KEY_UP, "leftshift");
    }
}

#[test]
fn modifier_layer() {
    let mut t = setup::<2, 3>(
        r#"
[matrix:2x3]

0x00 = a b c
0x10 = e f g

[shift]

c = S-G-j
g = S-m

[ctlshft:C-S]

c = C-G-a

"#,
    );
    t.push_layer(1);
    assert_read(&mut t, KEY_DOWN, "leftshift");

    // S-m
    press(&mut t, 1, 2, true);
    assert_read(&mut t, KEY_DOWN, "m");
    assert_none(&mut t);

    press(&mut t, 1, 2, false);
    assert_read(&mut t, KEY_UP, "m");
    assert_none(&mut t);

    // S-G-j
    press(&mut t, 0, 2, true);
    assert_event(&mut t, KeyEvent::PendingModifiers(8, true));
    assert_read(&mut t, KEY_DOWN, "j");
    assert_none(&mut t);

    press(&mut t, 0, 2, false);
    assert_read(&mut t, KEY_UP, "j");
    assert_read(&mut t, KEY_UP, "leftgui");

    t.pop_layer(1);
    assert_read(&mut t, KEY_UP, "leftshift");

    t.push_layer(6);
    assert_event(&mut t, KeyEvent::Modifiers(3, true));
    assert_none(&mut t);

    // C-G-a
    press(&mut t, 0, 2, true);
    assert_event(&mut t, KeyEvent::PendingModifiers(2, false));
    assert_event(&mut t, KeyEvent::PendingModifiers(8, true));
    assert_read(&mut t, KEY_DOWN, "a");
    assert_none(&mut t);

    press(&mut t, 0, 2, false);
    assert_read(&mut t, KEY_UP, "a");
    assert_event(&mut t, KeyEvent::PendingModifiers(8, false));
    assert_read(&mut t, KEY_DOWN, "leftshift");
}

#[test]
fn mapper_test_unicode() {
    let mut t = setup::<2, 3>(
        r#"
[global]

unicode_prefix = C-S-u
unicode_suffix = macro(return delay(20))

[matrix:2x3]

0x00 = a b c
0x10 = e f g

[main]

a = layer(nav)
c = macro(🆕)

[nav]

"#,
    );
    press(&mut t, 0, 2, true);

    assert_event(&mut t, KeyEvent::PendingModifiers(3, true));
    assert_read(&mut t, KEY_DOWN, "u");
    assert_read(&mut t, KEY_UP, "u");
    assert_event(&mut t, KeyEvent::Modifiers(3, false));

    for c in b"1f195" {
        t.check_time();
        let c = [*c];
        let c = std::str::from_utf8(&c).unwrap();
        assert_read(&mut t, KEY_DOWN, c);
        assert_read(&mut t, KEY_UP, c);
    }

    assert_read(&mut t, KEY_DOWN, "return");
    assert_read(&mut t, KEY_UP, "return");

    assert_event(&mut t, KeyEvent::Delay(20));

    assert_none(&mut t);
}

#[test]
fn tap_macros() {
    let mut t = setup::<2, 3>(
        r#"
[matrix:2x3]

0x00 = a b c
0x10 = e f g

[main]

c = macro(a macro(B macro(cd) e) f)
"#,
    );
    t.timer_request = None;
    t.now = 123_000;
    press(&mut t, 0, 2, true);

    // the mapper asks to be woken now to go on with the macro
    assert_eq!(t.timer_request.take(), Some(t.now));

    assert_read(&mut t, KEY_DOWN, "a");
    assert_read(&mut t, KEY_UP, "a");

    t.now = 123_100;

    assert_event(&mut t, KeyEvent::PendingModifiers(2, true));
    assert_read(&mut t, KEY_DOWN, "b");
    assert_read(&mut t, KEY_UP, "b");
    assert_read(&mut t, KEY_UP, "leftshift");

    assert_read(&mut t, KEY_DOWN, "c");
    assert_read(&mut t, KEY_UP, "c");

    assert_none(&mut t); // out of room

    t.check_time();

    assert_read(&mut t, KEY_DOWN, "d");
    assert_read(&mut t, KEY_UP, "d");

    t.check_time();

    assert_read(&mut t, KEY_DOWN, "e");
    assert_read(&mut t, KEY_UP, "e");

    t.check_time();

    assert_read(&mut t, KEY_DOWN, "f");
    assert_read(&mut t, KEY_UP, "f");

    // and then never, once the macro is done
    assert_eq!(t.timer_request.take(), Some(u64::MAX));

    press(&mut t, 0, 2, false);
    t.check_time();
    assert_none(&mut t);
}

#[test]
fn hold_release_macros() {
    let mut t = setup::<2, 3>(
        r#"
[matrix:2x3]

0x00 = a b c
0x10 = e f g

[main]

c = macro(hold(aab) release(ba))
"#,
    );
    press(&mut t, 0, 2, true);

    assert_read(&mut t, KEY_DOWN, "a");
    assert_read(&mut t, KEY_DOWN, "a");
    assert_read(&mut t, KEY_DOWN, "b");

    t.check_time();
    assert_none(&mut t);
    assert!(matches!(t.macro_running, Macro::Noop));

    press(&mut t, 0, 2, false);

    assert_read(&mut t, KEY_UP, "b");
    assert_read(&mut t, KEY_UP, "a");

    t.check_time();
    assert_none(&mut t);
}
