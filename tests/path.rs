use gusni::path::{trace_path, Bounce, MAX_LEVEL};
use std::cell::Cell;

#[test]
fn escape_gives_zero() {
    let calls = Cell::new(0usize);
    let r = trace_path(0u32, |_ray: u32| -> Bounce<u32, f64> {
        calls.set(calls.get() + 1);
        Bounce::Escape
    }, 0.0);
    assert_eq!(r, 0.0);
    assert_eq!(calls.get(), 1);
}

#[test]
fn emission_after_scatters() {
    let r = trace_path(0u32, |ray: u32| -> Bounce<u32, f64> {
        if ray == 3 {
            Bounce::Emission(2.5)
        } else {
            Bounce::Scatter(ray + 1)
        }
    }, 0.0);
    assert_eq!(r, 2.5);
}

#[test]
fn decay_gives_zero() {
    let r = trace_path(0u32, |ray: u32| -> Bounce<u32, f64> {
        if ray == 2 {
            Bounce::Decay
        } else {
            Bounce::Scatter(ray + 1)
        }
    }, 0.0);
    assert_eq!(r, 0.0);
}

#[test]
fn depth_cap_is_eight_bounces() {
    assert_eq!(MAX_LEVEL, 7);
    let seen = Cell::new(Vec::new());
    let r = trace_path(0u32, |ray: u32| -> Bounce<u32, f64> {
        let mut v = seen.take();
        v.push(ray);
        seen.set(v);
        Bounce::Scatter(ray + 1)
    }, -1.0);
    assert_eq!(r, -1.0);
    assert_eq!(seen.take(), vec![0, 1, 2, 3, 4, 5, 6, 7]);
}

#[test]
fn light_at_last_level_counts() {
    let r = trace_path(0u32, |ray: u32| -> Bounce<u32, f64> {
        if ray == 7 {
            Bounce::Emission(1.0)
        } else {
            Bounce::Scatter(ray + 1)
        }
    }, 0.0);
    assert_eq!(r, 1.0);
    let r = trace_path(0u32, |ray: u32| -> Bounce<u32, f64> {
        if ray == 8 {
            Bounce::Emission(1.0)
        } else {
            Bounce::Scatter(ray + 1)
        }
    }, 0.0);
    assert_eq!(r, 0.0);
}
