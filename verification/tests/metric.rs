use color_census::color::Color;
use color_census::metric::{euclidean_distance_squared, MAX_DISTANCE_SQUARED};

fn rgb(r: u8, g: u8, b: u8) -> Color {
    Color { r, g, b }
}

#[test]
fn distance_squared_sums_the_squared_channel_gaps() {
    assert_eq!(euclidean_distance_squared(&rgb(1, 2, 3), &rgb(4, 6, 15)), 9 + 16 + 144);
    assert_eq!(euclidean_distance_squared(&rgb(154, 241, 4), &rgb(168, 2, 255)), 120_318);
    assert_eq!(euclidean_distance_squared(&rgb(127, 127, 127), &rgb(0, 0, 0)), 48_387);
    assert_eq!(euclidean_distance_squared(&rgb(127, 127, 127), &rgb(255, 255, 255)), 49_152);
}

#[test]
fn distance_is_symmetric() {
    let a = rgb(10, 200, 33);
    let b = rgb(240, 7, 90);
    assert_eq!(euclidean_distance_squared(&a, &b), euclidean_distance_squared(&b, &a));
    assert_eq!(euclidean_distance_squared(&a, &b), 230 * 230 + 193 * 193 + 57 * 57);
}

#[test]
fn distance_to_itself_is_zero() {
    let a = rgb(10, 200, 33);
    assert_eq!(euclidean_distance_squared(&a, &a), 0);
    assert_ne!(euclidean_distance_squared(&a, &rgb(10, 200, 34)), 0);
}

#[test]
fn distance_is_largest_between_opposite_corners() {
    assert_eq!(euclidean_distance_squared(&rgb(0, 0, 0), &rgb(255, 255, 255)), MAX_DISTANCE_SQUARED);
    assert_eq!(MAX_DISTANCE_SQUARED, 3 * 255 * 255);
    let root = (MAX_DISTANCE_SQUARED as f64).sqrt();
    assert!((root - 441.672_955_930_063_7).abs() < 1e-9);
}
