use brusselator::path::integrate_path;

fn drift_only(a: f64, b: f64, dt: f64) -> impl Fn((f64, f64), (f64, f64)) -> (f64, f64) {
    move |(x, y): (f64, f64), _w: (f64, f64)| {
        (
            x + (1.0 - (b + 1.0) * x + a * x * x * y) * dt,
            y + (b * x - a * x * x * y) * dt,
        )
    }
}

#[test]
fn path_has_one_more_state_than_steps() {
    for steps in [0usize, 1, 5, 1000] {
        let noise = vec![(0.0f64, 0.0f64); steps];
        let p = integrate_path((0.25, -1.5), &noise, drift_only(1.0, 2.0, 0.001));
        assert_eq!(p.len(), steps + 1);
        assert_eq!(p[0], (0.25, -1.5));
    }
}

#[test]
fn drift_only_first_step() {
    let noise = vec![(0.0f64, 0.0f64); 5];
    let p = integrate_path((0.0, 0.0), &noise, drift_only(1.0, 2.0, 0.001));
    assert_eq!(p.len(), 6);
    assert_eq!(p[0], (0.0, 0.0));
    assert!((p[1].0 - 0.001).abs() < 1e-15);
    assert_eq!(p[1].1, 0.0);
}

#[test]
fn fixed_noise_gives_identical_paths() {
    let noise: Vec<(f64, f64)> = (0..50).map(|i| ((i as f64).sin(), (i as f64).cos())).collect();
    let g = [0.5, 0.1, -0.2, 0.3];
    let dt: f64 = 0.01;
    let sq = dt.sqrt();
    let update = move |(x, y): (f64, f64), (w0, w1): (f64, f64)| {
        (
            x + (1.0 - 3.0 * x + x * x * y) * dt + (g[0] * w0 + g[1] * w1) * sq,
            y + (2.0 * x - x * x * y) * dt + (g[2] * w0 + g[3] * w1) * sq,
        )
    };
    let p = integrate_path((0.1, 0.2), &noise, update);
    let q = integrate_path((0.1, 0.2), &noise, update);
    assert_eq!(p, q);
    assert_eq!(p.len(), 51);
}

#[test]
fn each_state_comes_from_the_previous_and_its_noise() {
    let noise: Vec<i64> = vec![3, -1, 4, 1, -5];
    let p = integrate_path(10i64, &noise, |s: i64, w: i64| 2 * s + w);
    assert_eq!(p, vec![10, 23, 45, 94, 189, 373]);
}
