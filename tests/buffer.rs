use gusni::buffer::{Buffer, Progress, Report};
use std::cell::{Cell, RefCell};

fn no_report() -> Option<Report<fn(Progress)>> {
    None
}

fn plus(a: u64, b: u64) -> u64 {
    a + b
}

/// One sample per wavelength bin: (row, column, 1) for each of two bins.
fn two_bins(i: usize, j: usize) -> Vec<(u64, u64, u64)> {
    vec![(i as u64, j as u64, 1), (10, 20, 30)]
}

#[test]
fn new_buffer_is_zero_and_stale() {
    let b: Buffer<u64> = Buffer::new(3, 2, None, 0);
    assert_eq!(b.width(), 3);
    assert_eq!(b.height(), 2);
    assert_eq!(b.sample_count(), 0);
    assert_eq!(b.data().len(), 18);
    assert!(b.data().iter().all(|v| *v == 0));
}

#[test]
fn new_buffer_keeps_given_data() {
    let data: Vec<u64> = (0..6).collect();
    let b = Buffer::new(2, 1, Some(data.clone()), 0);
    assert_eq!(b.data(), &data[..]);
    assert_eq!(b.sample_count(), 0);
}

#[test]
fn complete_pass_sums_every_bin() {
    let mut b: Buffer<u64> = Buffer::new(2, 2, Some(vec![7; 12]), 0);
    assert!(b.trace(0, two_bins, plus, || false, no_report()));
    assert_eq!(b.sample_count(), 1);
    // stale start: every pixel overwritten with the sum of its two bins
    let expected: Vec<u64> = vec![10, 20, 31, 10, 21, 31, 11, 20, 31, 11, 21, 31];
    assert_eq!(b.data(), &expected[..]);
}

#[test]
fn second_pass_adds_to_running_sums() {
    let mut b: Buffer<u64> = Buffer::new(1, 1, None, 0);
    assert!(b.trace(0, two_bins, plus, || false, no_report()));
    assert!(b.trace(0, two_bins, plus, || false, no_report()));
    assert_eq!(b.sample_count(), 2);
    assert_eq!(b.data(), &[20, 40, 62][..]);
}

#[test]
fn cancelled_pass_resets_count() {
    let mut b: Buffer<u64> = Buffer::new(3, 1, None, 0);
    assert!(b.trace(0, two_bins, plus, || false, no_report()));
    let calls = Cell::new(0usize);
    let cancel_after_two = || {
        calls.set(calls.get() + 1);
        calls.get() == 2
    };
    assert!(!b.trace(0, two_bins, plus, cancel_after_two, no_report()));
    assert_eq!(b.sample_count(), 0);
    assert_eq!(calls.get(), 2);
}

#[test]
fn pass_after_cancel_matches_fresh_pass() {
    let mut cancelled: Buffer<u64> = Buffer::new(2, 2, None, 0);
    let calls = Cell::new(0usize);
    let cancel_after_three = || {
        calls.set(calls.get() + 1);
        calls.get() == 3
    };
    assert!(!cancelled.trace(0, two_bins, plus, cancel_after_three, no_report()));
    assert_eq!(cancelled.sample_count(), 0);
    assert!(cancelled.trace(0, two_bins, plus, || false, no_report()));

    let mut fresh: Buffer<u64> = Buffer::new(2, 2, None, 0);
    assert!(fresh.trace(0, two_bins, plus, || false, no_report()));
    assert_eq!(cancelled.data(), fresh.data());
    assert_eq!(cancelled.sample_count(), 1);
}

#[test]
fn trace_merge_trace_overwrites_drained_sums() {
    let mut shared: Buffer<u64> = Buffer::new(1, 1, None, 0);
    let mut local: Buffer<u64> = Buffer::new(1, 1, None, 0);
    assert!(local.trace(0, two_bins, plus, || false, no_report()));
    shared.merge(&mut local, plus);
    assert_eq!(local.sample_count(), 0);
    assert_eq!(local.data(), &[10, 20, 31][..]);
    assert!(local.trace(0, two_bins, plus, || false, no_report()));
    assert_eq!(local.data(), &[10, 20, 31][..]);
    shared.merge(&mut local, plus);
    assert_eq!(shared.data(), &[20, 40, 62][..]);
    assert_eq!(shared.sample_count(), 2);
}

#[test]
fn progress_every_interval() {
    let log: RefCell<Vec<Progress>> = RefCell::new(Vec::new());
    let report = Report { id: 5, interval: 2, sender: |p: Progress| log.borrow_mut().push(p) };
    let mut b: Buffer<u64> = Buffer::new(3, 2, None, 0);
    assert!(b.trace(0, two_bins, plus, || false, Some(report)));
    let indices: Vec<usize> = log.borrow().iter().map(|p| p.index).collect();
    assert_eq!(indices, vec![0, 2, 4]);
    assert!(log.borrow().iter().all(|p| p.id == 5 && p.sample == 0));
}

#[test]
fn report_due() {
    let r = Report { id: 0, interval: 0x1000, sender: |_p: Progress| {} };
    assert!(r.due(0));
    assert!(r.due(0x3000));
    assert!(!r.due(0x1001));
}

#[test]
fn merge_with_fresh_buffer_changes_nothing() {
    let mut b: Buffer<u64> = Buffer::new(2, 1, None, 0);
    assert!(b.trace(0, two_bins, plus, || false, no_report()));
    let before: Vec<u64> = b.data().to_vec();
    let mut fresh: Buffer<u64> = Buffer::new(2, 1, None, 0);
    b.merge(&mut fresh, plus);
    assert_eq!(b.data(), &before[..]);
    assert_eq!(b.sample_count(), 1);
    assert_eq!(fresh.sample_count(), 0);
}

#[test]
fn merge_regroups_sums() {
    let mut b: Buffer<u64> = Buffer::new(1, 1, None, 0);
    let mut c: Buffer<u64> = Buffer::new(1, 1, None, 0);
    assert!(b.trace(0, |_, _| vec![(1, 2, 3)], plus, || false, no_report()));
    assert!(c.trace(0, |_, _| vec![(4, 5, 6)], plus, || false, no_report()));

    let mut a1: Buffer<u64> = Buffer::new(1, 1, Some(vec![100, 200, 300]), 0);
    let mut b1: Buffer<u64> = Buffer::new(1, 1, None, 0);
    let mut c1: Buffer<u64> = Buffer::new(1, 1, None, 0);
    assert!(b1.trace(0, |_, _| vec![(1, 2, 3)], plus, || false, no_report()));
    assert!(c1.trace(0, |_, _| vec![(4, 5, 6)], plus, || false, no_report()));
    a1.merge(&mut b1, plus);
    a1.merge(&mut c1, plus);

    let mut a2: Buffer<u64> = Buffer::new(1, 1, Some(vec![100, 200, 300]), 0);
    b.merge(&mut c, plus);
    a2.merge(&mut b, plus);
    assert_eq!(a1.data(), a2.data());
    assert_eq!(a1.data(), &[105, 207, 309][..]);
    assert_eq!(a1.sample_count(), 2);
    assert_eq!(a2.sample_count(), 2);
}

#[test]
fn merge_of_floats_within_tolerance() {
    let samples = |i: usize, j: usize| vec![(0.1 * (i + 1) as f64, 0.2 * (j + 1) as f64, 0.3)];
    let add = |a: f64, b: f64| a + b;
    let mut a: Buffer<f64> = Buffer::new(2, 2, None, 0.0);
    let mut b: Buffer<f64> = Buffer::new(2, 2, None, 0.0);
    let mut c: Buffer<f64> = Buffer::new(2, 2, None, 0.0);
    assert!(a.trace(0.0, samples, add, || false, no_report()));
    assert!(b.trace(0.0, samples, add, || false, no_report()));
    assert!(c.trace(0.0, samples, add, || false, no_report()));
    let raw: Vec<f64> = b.data().iter().zip(c.data()).map(|(x, y)| x + y).collect();
    let expected: Vec<f64> = a.data().iter().zip(&raw).map(|(x, y)| x + y).collect();
    a.merge(&mut b, add);
    a.merge(&mut c, add);
    for (x, y) in a.data().iter().zip(&expected) {
        assert!((x - y).abs() < 1e-12);
    }
    assert_eq!(a.sample_count(), 3);
}

#[test]
fn add_consumes_both() {
    let mut b: Buffer<u64> = Buffer::new(1, 1, None, 0);
    let mut c: Buffer<u64> = Buffer::new(1, 1, None, 0);
    assert!(b.trace(0, |_, _| vec![(1, 2, 3)], plus, || false, no_report()));
    assert!(c.trace(0, |_, _| vec![(4, 5, 6)], plus, || false, no_report()));
    let s = b.add(c, plus);
    assert_eq!(s.data(), &[5, 7, 9][..]);
    assert_eq!(s.sample_count(), 2);
}

#[test]
fn write_on_stale_buffer_leaves_output() {
    let b: Buffer<u64> = Buffer::new(2, 1, Some(vec![1, 2, 3, 4, 5, 6]), 0);
    let mut out: Vec<u8> = vec![9; 6];
    b.write(false, &mut out, |v: u64| v as u8);
    assert_eq!(out, vec![9; 6]);
}

#[test]
fn write_in_order_and_reversed() {
    let mut b: Buffer<u64> = Buffer::new(2, 1, None, 0);
    assert!(b.trace(0, |_, j| vec![(1 + 3 * j as u64, 2 + 3 * j as u64, 3 + 3 * j as u64)], plus, || false, no_report()));
    let mut out: Vec<u8> = vec![0; 6];
    b.write(false, &mut out, |v: u64| (v * 10) as u8);
    assert_eq!(out, vec![10, 20, 30, 40, 50, 60]);
    b.write(true, &mut out, |v: u64| (v * 10) as u8);
    assert_eq!(out, vec![30, 20, 10, 60, 50, 40]);
}

#[test]
fn write_scales_and_clamps_floats() {
    let mut b: Buffer<f64> = Buffer::new(1, 1, None, 0.0);
    assert!(b.trace(0.0, |_, _| vec![(0.5, 2.0, -1.0)], |a, b| a + b, || false, no_report()));
    let factor = 1.0 / b.sample_count() as f64;
    let to_byte = |v: f64| {
        let a = v * factor;
        if a >= 1.0 {
            255
        } else if a <= 0.0 {
            0
        } else {
            (a * 255.0) as u8
        }
    };
    let mut out: Vec<u8> = vec![0; 3];
    b.write(false, &mut out, to_byte);
    assert_eq!(out, vec![127, 255, 0]);
}

#[test]
fn cancelled_pass_leaves_later_pixels() {
    let mut b: Buffer<u64> = Buffer::new(2, 2, Some(vec![5; 12]), 0);
    let calls = Cell::new(0usize);
    let log: RefCell<Vec<Progress>> = RefCell::new(Vec::new());
    let report = Report { id: 1, interval: 1, sender: |p: Progress| log.borrow_mut().push(p) };
    let cancel_after_two = || {
        calls.set(calls.get() + 1);
        calls.get() == 2
    };
    assert!(!b.trace(0, two_bins, plus, cancel_after_two, Some(report)));
    assert_eq!(b.sample_count(), 0);
    assert_eq!(calls.get(), 2);
    assert_eq!(&b.data()[0..6], &[10, 20, 31, 10, 21, 31][..]);
    assert_eq!(&b.data()[6..12], &[5; 6][..]);
    let indices: Vec<usize> = log.borrow().iter().map(|p| p.index).collect();
    assert_eq!(indices, vec![0, 1]);
}
