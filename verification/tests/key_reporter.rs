use std::collections::VecDeque;

use rpk::key_event::KeyEvent;
use rpk::key_reporter::Reporter;

/// Feeds each event to the reporter and queues the reports in the order they are written.
fn run(reporter: &mut Reporter, messages: &mut VecDeque<Vec<u8>>, events: &[KeyEvent]) {
    for ev in events {
        let plan = reporter.report(*ev);
        for r in plan.reports {
            messages.push_back(r);
        }
    }
}

#[test]
fn delay() {
    let mut reporter = Reporter::new();
    let mut messages = VecDeque::new();
    run(&mut reporter, &mut messages, &[KeyEvent::Basic(4, true)]);
    let plan = reporter.report(KeyEvent::Delay(1));
    assert_eq!(plan.delay_ms, 1);
    assert!(plan.reports.is_empty());
    run(&mut reporter, &mut messages, &[KeyEvent::Basic(0xe2, true)]);

    assert_eq!(&messages.pop_front().unwrap()[..5], &vec![6, 0, 16, 0, 0]);
    assert_eq!(&messages.pop_front().unwrap()[..5], &vec![6, 4, 16, 0, 0]);
}

#[test]
fn basic_report() {
    let mut reporter = Reporter::new();
    let mut messages = VecDeque::new();
    run(
        &mut reporter,
        &mut messages,
        &[
            KeyEvent::Basic(5, true),
            KeyEvent::Basic(4, true),
            KeyEvent::Basic(0xe2, true),
            KeyEvent::Basic(4, false),
            KeyEvent::Basic(0xe2, true),
        ],
    );

    assert_eq!(messages.pop_front().unwrap().len(), 34);
    assert_eq!(&messages.pop_front().unwrap()[..5], &vec![6, 0, 48, 0, 0]);
    assert_eq!(&messages.pop_front().unwrap()[..5], &vec![6, 4, 48, 0, 0]);
    assert_eq!(&messages.pop_front().unwrap()[..5], &vec![6, 4, 32, 0, 0]);
}

#[test]
fn modifiers_report() {
    let mut reporter = Reporter::new();
    let mut messages = VecDeque::new();
    run(
        &mut reporter,
        &mut messages,
        &[
            KeyEvent::Modifiers(6, true),
            KeyEvent::Modifiers(8, true),
            KeyEvent::Modifiers(2, false),
            KeyEvent::PendingModifiers(2, true),
            KeyEvent::Basic(16, true),
            KeyEvent::PendingModifiers(4, false),
            KeyEvent::PendingModifiers(1, true),
            KeyEvent::Pending,
            KeyEvent::Clear,
        ],
    );

    let msg = messages.pop_front().unwrap();
    assert_eq!(msg.len(), 34);
    assert_eq!(&msg[..5], &vec![6, 6, 0, 0, 0]);
    assert_eq!(&messages.pop_front().unwrap()[..5], &vec![6, 14, 0, 0, 0]);
    assert_eq!(&messages.pop_front().unwrap()[..5], &vec![6, 12, 0, 0, 0]);
    assert_eq!(&messages.pop_front().unwrap()[..5], &vec![6, 14, 0, 0, 1]);
    assert_eq!(&messages.pop_front().unwrap()[..5], &vec![6, 11, 0, 0, 1]);
    assert_eq!(&messages.pop_front().unwrap(), &vec![2, 0, 0, 0, 0, 0]);
    assert_eq!(&messages.pop_front().unwrap(), &vec![3, 0, 0]);
    assert_eq!(&messages.pop_front().unwrap(), &vec![4, 0, 0]);
    assert_eq!(&messages.pop_front().unwrap()[..5], &vec![6, 0, 0, 0, 0]);
}

#[test]
fn consumer_report() {
    let mut reporter = Reporter::new();
    let mut messages = VecDeque::new();
    run(
        &mut reporter,
        &mut messages,
        &[KeyEvent::Consumer(361), KeyEvent::Consumer(104), KeyEvent::Consumer(0)],
    );

    let msg = messages.pop_front().unwrap();
    assert_eq!(msg.len(), 3);
    assert_eq!(&msg, &vec![4, 105, 1]);
    assert_eq!(&messages.pop_front().unwrap(), &vec![4, 104, 0]);
    assert_eq!(&messages.pop_front().unwrap(), &vec![4, 0, 0]);
}

#[test]
fn sys_ctl_report() {
    let mut reporter = Reporter::new();
    let mut messages = VecDeque::new();
    run(
        &mut reporter,
        &mut messages,
        &[KeyEvent::SysCtl(361), KeyEvent::SysCtl(104), KeyEvent::SysCtl(0)],
    );

    let msg = messages.pop_front().unwrap();
    assert_eq!(msg.len(), 3);
    assert_eq!(&msg, &vec![3, 105, 1]);
    assert_eq!(&messages.pop_front().unwrap(), &vec![3, 104, 0]);
    assert_eq!(&messages.pop_front().unwrap(), &vec![3, 0, 0]);
}

#[test]
fn repeated_key_down_releases_first() {
    let mut reporter = Reporter::new();
    let mut messages = VecDeque::new();
    run(
        &mut reporter,
        &mut messages,
        &[KeyEvent::Basic(4, true), KeyEvent::Basic(4, true)],
    );
    assert_eq!(&messages.pop_front().unwrap()[..3], &vec![6, 0, 16]);
    assert_eq!(&messages.pop_front().unwrap()[..3], &vec![6, 0, 0]);
    assert_eq!(&messages.pop_front().unwrap()[..3], &vec![6, 0, 16]);
    assert!(messages.is_empty());
}

#[test]
fn mouse_reports() {
    let mut reporter = Reporter::new();
    let mut messages = VecDeque::new();
    run(
        &mut reporter,
        &mut messages,
        &[KeyEvent::MouseButton(3), KeyEvent::MouseMove(1, 250, 1)],
    );
    assert_eq!(&messages.pop_front().unwrap(), &vec![2, 3]);
    assert_eq!(&messages.pop_front().unwrap(), &vec![2, 1, 0, 250, 0, 0]);
}
