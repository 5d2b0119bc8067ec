use std::collections::VecDeque;

use rpk::key_scanner::{
    start_debounce, KeyScanner, IDLE_WAIT_COUNT, INITIAL_TIME_PER_OUTPUT_PIN,
};
use rpk::scan_key::ScanKey;

const TIME_PER_OUTPUT_PIN: u64 = INITIAL_TIME_PER_OUTPUT_PIN;

fn from_ms(ms: u64) -> u16 {
    ((ms * 1000) << 10).div_ceil(39063) as u16
}

/// A key matrix of one input pin and three output pins, scanned on a simulated clock in
/// which every wait for a time still to come overshoots it by `lag` ticks.
struct Bench {
    scanner: KeyScanner,
    clock: u64,
    lag: u64,
    /// Switch positions by output pin, then input pin.
    switches: Vec<Vec<bool>>,
    events: VecDeque<ScanKey>,
    m16: u16,
}

impl Bench {
    fn new(debounce_ms: u64) -> Self {
        Bench {
            scanner: KeyScanner::new(1, 3),
            clock: 1000,
            lag: 0,
            switches: vec![vec![false]; 3],
            events: VecDeque::new(),
            m16: from_ms(debounce_ms),
        }
    }

    fn timer_at(&mut self, at: u64) {
        if at > self.clock {
            self.clock = at + self.lag;
        }
    }

    fn down(&mut self, ipin: usize, opin: usize) {
        self.switches[opin][ipin] = true;
    }

    fn up(&mut self, ipin: usize, opin: usize) {
        self.switches[opin][ipin] = false;
    }

    fn scan_once(&mut self) {
        let half = self.scanner.half_time_per_output_pin();
        let mut now = self.clock + half;
        self.scanner.begin_scan();
        let mut all_up = true;
        for out in 0..self.switches.len() {
            self.timer_at(now);
            now += self.scanner.time_per_output_pin;
            let readings = self.switches[out].clone();
            let (events, up) = self.scanner.scan_output(out, &readings, true);
            self.events.extend(events);
            all_up &= up;
        }
        now -= half;
        let realnow = self.clock;
        let rem = if realnow > now {
            -((realnow - now) as i32)
        } else {
            self.timer_at(now);
            (now - realnow) as i32
        };
        self.scanner.end_scan(rem, all_up);
    }

    /// Scans `n` times and returns the state of the key at input 0, output 1.
    fn scan(&mut self, n: usize) -> u8 {
        for _ in 0..n {
            self.scan_once();
        }
        self.scanner.state[1][0]
    }

    fn calc(&mut self) {
        let m16 = self.m16;
        self.scanner.calc_debounce_cycle(m16);
    }
}

#[test]
fn calc_debounce_cycle() {
    let mut b = Bench::new(4);
    b.calc();
    assert_eq!(b.scanner.scan_free_time, i32::MIN);
    assert_eq!(b.scanner.debounce_count_max, 0);
    assert_eq!(b.scanner.scan_count_max, 0);

    b.lag = 20;
    b.scan(1);
    assert_eq!(b.scanner.scan_free_time, -4);
    assert_eq!(b.scanner.time_per_output_pin, 32);

    b.calc();
    assert_eq!(b.scanner.time_per_output_pin, 64);
    assert_eq!(b.scanner.debounce_count_max, 15);
    assert_eq!(b.scanner.scan_count_max, 0);

    b.scan(1);
    assert_eq!(b.scanner.scan_free_time, 12);
    assert_eq!(b.scanner.time_per_output_pin, 64);
    b.calc();
    assert_eq!(b.scanner.time_per_output_pin, 64);
    assert_eq!(b.scanner.debounce_count_max, 15);
    assert_eq!(b.scanner.scan_count_max, 0);

    b.scanner.scan_free_time = 33;
    b.calc();
    assert_eq!(b.scanner.time_per_output_pin, 32);
    assert_eq!(b.scanner.debounce_count_max, 31);
    assert_eq!(b.scanner.scan_count_max, 0);

    b.scanner.scan_free_time = 10;
    b.m16 = from_ms(100);
    b.calc();
    assert_eq!(b.scanner.time_per_output_pin, 32);
    assert_eq!(b.scanner.debounce_count_max, 31);
    assert_eq!(b.scanner.scan_count_max, 31);

    b.scanner.scan_free_time = -1025;
    b.calc();
    assert_eq!(b.scanner.time_per_output_pin, 2048);
    assert_eq!(b.scanner.debounce_count_max, 15);
    assert_eq!(b.scanner.scan_count_max, 0);
}

#[test]
fn calc_debounce_short() {
    let mut b = Bench::new(4);
    b.lag = 20;
    b.scan(3);
    assert_eq!(b.scanner.time_per_output_pin, TIME_PER_OUTPUT_PIN);
    assert_eq!(b.clock, 1000 + (20 + TIME_PER_OUTPUT_PIN * 5 / 2) * 3);

    b.calc();
    assert_eq!(b.scanner.scan_free_time, -4);
    assert_eq!(b.scanner.debounce_count_max, 15);
    assert_eq!(b.scanner.scan_count_max, 0);

    assert_eq!(b.scanner.time_per_output_pin, TIME_PER_OUTPUT_PIN * 2);
    b.scan(20);
    b.calc();
    assert_eq!(b.scanner.time_per_output_pin, TIME_PER_OUTPUT_PIN * 2);
    assert_eq!(b.scanner.debounce_count_max, 15);
    assert_eq!(b.scanner.scan_count_max, 0);
}

#[test]
fn calc_debounce_mid() {
    let mut b = Bench::new(39);
    b.lag = 500;
    assert_eq!(b.scanner.time_per_output_pin, TIME_PER_OUTPUT_PIN);

    b.scan(3);
    assert_eq!(b.clock, 2548);
    assert_eq!(b.scanner.scan_free_time, -420);

    b.calc();
    assert_eq!(b.scanner.debounce_count_max, 15);
    assert_eq!(b.scanner.scan_count_max, 0);
    assert_eq!(b.scanner.time_per_output_pin, TIME_PER_OUTPUT_PIN * 16);

    b.scan(10);
    b.calc();
    assert_eq!(b.scanner.time_per_output_pin, TIME_PER_OUTPUT_PIN * 32);
    b.scan(10);
    b.calc();
    assert_eq!(b.scanner.time_per_output_pin, TIME_PER_OUTPUT_PIN * 32);
    assert_eq!(b.scanner.debounce_count_max, 7);
    assert_eq!(b.scanner.scan_count_max, 0);
}

#[test]
fn calc_debounce_high() {
    let mut b = Bench::new(382);
    b.lag = 100;
    assert_eq!(b.scanner.time_per_output_pin, TIME_PER_OUTPUT_PIN);

    b.scan(3);
    assert_eq!(b.clock, 1348);

    b.calc();
    assert_eq!(b.scanner.scan_free_time, -20);
    assert_eq!(b.scanner.debounce_count_max, 31);
    assert_eq!(b.scanner.scan_count_max, 61);

    b.scan(10);
    b.calc();
    assert_eq!(b.scanner.time_per_output_pin, TIME_PER_OUTPUT_PIN * 4);
    b.scan(10);
    b.calc();
    assert_eq!(b.scanner.time_per_output_pin, TIME_PER_OUTPUT_PIN * 8);
    b.scan(10);
    b.calc();
    assert_eq!(b.scanner.time_per_output_pin, TIME_PER_OUTPUT_PIN * 8);
    assert_eq!(b.scanner.debounce_count_max, 31);
    assert_eq!(b.scanner.scan_count_max, 14);
}

#[test]
fn debounce() {
    let mut b = Bench::new(25);
    b.scanner.debounce_count_max = 31;
    b.scanner.scan_count_max = 3;
    assert_eq!(b.scan(1), 0);
    assert_eq!(b.scanner.scan_count, 1);
    b.down(0, 1);
    assert_eq!(b.scan(1), 255);
    assert_eq!(b.events.pop_front().unwrap(), ScanKey::new(1, 0, true));

    assert_eq!(b.scan(1), 255);
    assert!(b.events.pop_front().is_none());
    assert_eq!(b.scanner.scan_count, 3);

    assert_eq!(b.scan(10), 255);
    assert_eq!(b.scanner.scan_count, 1);

    b.up(0, 1);
    assert_eq!(b.scan(100), 138);
    b.down(0, 1);
    b.down(0, 2);
    assert_eq!(b.scan(3), 239);
    assert_eq!(b.events.pop_front().unwrap(), ScanKey::new(2, 0, true));

    b.up(0, 1);
    assert_eq!(b.scan(123), 242);
    assert!(b.events.pop_front().is_none());

    assert_eq!(b.scan(1), 2);
    assert_eq!(b.events.pop_front().unwrap(), ScanKey::new(1, 0, false));
}

#[test]
fn idle_scans_before_waiting() {
    let mut b = Bench::new(4);
    b.scan(1);
    assert!(b.scanner.all_up);
    assert_eq!(b.scanner.all_up_limit, IDLE_WAIT_COUNT);
    let mut scans = 0;
    while !b.scanner.idle_step() {
        scans += 1;
        b.scan(1);
    }
    assert_eq!(scans, IDLE_WAIT_COUNT);
    let m16 = b.m16;
    b.scanner.start_wait_for_key(m16);
    assert!(!b.scanner.all_up);
}

#[test]
fn settled_change_is_reported_once() {
    let mut b = Bench::new(4);
    b.scanner.debounce_count_max = 3;
    b.down(0, 0);
    b.scan(1);
    assert_eq!(b.events.pop_front().unwrap(), ScanKey::new(0, 0, true));
    b.scan(2);
    assert!(b.events.is_empty());
    assert_eq!(b.scanner.state[0][0] & 3, 3);
}

#[test]
fn start_debounce_values() {
    assert_eq!(start_debounce(3, 0, 31), 3 | 128 | (31 << 2));
    assert_eq!(start_debounce(1, 5, 31), 1 | 128 | (4 << 2));
    assert_eq!(start_debounce(0, 1, 7), 128);
}
