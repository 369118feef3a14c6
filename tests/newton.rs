use newton_fractal::bands::{bands, WORKERS};
use newton_fractal::render::{intensity, iteration_count, render, MAX_COUNT};
use num::complex::Complex;

const TOL: f64 = 0.0001;

fn roots() -> [Complex<f64>; 3] {
    let s = (2.0 * std::f32::consts::PI / 3.0).sin() as f64;
    [Complex::new(1.0, 0.0), Complex::new(-0.5, s), Complex::new(-0.5, -s)]
}

fn pixel_to_complex(
    bounds: (usize, usize),
    pixel: (usize, usize),
    plane: (Complex<f64>, Complex<f64>),
) -> Complex<f64> {
    let (w, h) = (plane.1.re - plane.0.re, plane.0.im - plane.1.im);
    Complex {
        re: plane.0.re + pixel.0 as f64 * w / bounds.0 as f64,
        im: plane.0.im - pixel.1 as f64 * h / bounds.1 as f64,
    }
}

fn near_root(z: &Complex<f64>) -> bool {
    roots().iter().any(|r| (z - r).norm() < TOL)
}

fn newton_step(z: Complex<f64>) -> Complex<f64> {
    if z.norm() > 0.0 {
        z - (z * z * z - 1.0) / (3.0 * z * z)
    } else {
        z
    }
}

fn count_at(z: Complex<f64>) -> u32 {
    iteration_count(z, &near_root, &newton_step)
}

fn render_image(width: usize, height: usize, plane: (Complex<f64>, Complex<f64>)) -> Vec<u8> {
    let mut buffer = vec![0u8; width * height];
    let mut rest: &mut [u8] = &mut buffer;
    for band in bands(height, WORKERS) {
        let (chunk, tail) = rest.split_at_mut((band.row_end - band.row_start) * width);
        let sample = |x: usize, y: usize| pixel_to_complex((width, height), (x, y), plane);
        render(chunk, band, width, &sample, &near_root, &newton_step);
        rest = tail;
    }
    assert!(rest.is_empty());
    buffer
}

fn square_plane() -> (Complex<f64>, Complex<f64>) {
    (Complex::new(-2.0, 2.0), Complex::new(2.0, -2.0))
}

#[test]
fn mapping_is_deterministic() {
    let plane = (Complex::new(-1.3, 0.7), Complex::new(0.9, -0.45));
    for &(x, y) in &[(0usize, 0usize), (17, 3), (63, 47), (99, 99)] {
        let a = pixel_to_complex((100, 60), (x, y), plane);
        let b = pixel_to_complex((100, 60), (x, y), plane);
        assert_eq!(a.re.to_bits(), b.re.to_bits());
        assert_eq!(a.im.to_bits(), b.im.to_bits());
    }
}

#[test]
fn top_left_pixel_maps_to_top_left_corner() {
    let plane = (Complex::new(-1.3, 0.7), Complex::new(0.9, -0.45));
    assert_eq!(pixel_to_complex((100, 60), (0, 0), plane), plane.0);
}

#[test]
fn last_column_approaches_right_edge() {
    let plane = square_plane();
    let coarse = pixel_to_complex((10, 10), (9, 0), plane);
    let fine = pixel_to_complex((10_000, 10), (9_999, 0), plane);
    assert!((plane.1.re - fine.re).abs() < (plane.1.re - coarse.re).abs());
    assert!((plane.1.re - fine.re).abs() < 0.001);
}

#[test]
fn every_sample_stops_within_the_cap() {
    let mut points: Vec<Complex<f64>> = roots().to_vec();
    points.push(Complex::new(0.0, 0.0));
    points.push(Complex::new(1.0e6, -1.0e6));
    points.push(Complex::new(-1.0e9, 3.0));
    for i in 0..21 {
        for j in 0..21 {
            points.push(Complex::new(-5.0 + 0.5 * i as f64, -5.0 + 0.5 * j as f64));
        }
    }
    for z in points {
        assert!(count_at(z) <= MAX_COUNT);
    }
}

#[test]
fn sample_at_root_one_stops_at_once() {
    let count = count_at(Complex::new(1.0, 0.0));
    assert_eq!(count, 0);
    assert_eq!(intensity(count), 255);
}

#[test]
fn sample_at_origin_runs_to_the_cap() {
    let count = count_at(Complex::new(0.0, 0.0));
    assert_eq!(count, MAX_COUNT);
    assert_eq!(intensity(count), 14);
}

#[test]
fn hundred_by_hundred_scenario() {
    let buffer = render_image(100, 100, square_plane());
    assert_eq!(buffer.len(), 10_000);
    // Column 75, row 50 maps exactly onto the root 1.
    assert_eq!(buffer[50 * 100 + 75], 255);
    // The pixels closest to the two complex roots sit on bright plateaus.
    for &(x, y) in &[(37usize, 28usize), (38, 28), (37, 72), (38, 72)] {
        let z = pixel_to_complex((100, 100), (x, y), square_plane());
        let expected = intensity(count_at(z));
        assert_eq!(buffer[y * 100 + x], expected);
        assert!(count_at(z) <= 4);
        assert!(buffer[y * 100 + x] >= 195);
    }
    // The origin never moves and ends dark.
    assert_eq!(buffer[50 * 100 + 50], 14);
    // Every byte is what its own sample gives.
    for y in 0..100 {
        for x in 0..100 {
            let z = pixel_to_complex((100, 100), (x, y), square_plane());
            assert_eq!(buffer[y * 100 + x], intensity(count_at(z)));
        }
    }
    // Dark pixels exist off the origin too, along the basin boundaries.
    let dark = buffer.iter().filter(|&&b| b < 100).count();
    assert!(dark > 1);
}
