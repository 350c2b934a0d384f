use fractal_plot::color::{pix, Rgb};
use fractal_plot::gradient::{Gradient, GradientError, Stop};
use fractal_plot::FP_ONE;

fn simple_gradient(period: i64) -> Gradient {
    let stops = vec![Stop::new(FP_ONE / 2, pix(100, 200, 50))];
    Gradient::new(period, pix(0, 0, 0), stops, pix(200, 100, 250)).unwrap()
}

#[test]
fn new_rejects_non_positive_period() {
    let stops = vec![Stop::new(FP_ONE / 2, pix(1, 2, 3))];
    let r = Gradient::new(0, pix(0, 0, 0), stops, pix(9, 9, 9));
    assert_eq!(r.err(), Some(GradientError::NonPositivePeriod));
}

#[test]
fn new_rejects_empty_stops() {
    let r = Gradient::new(FP_ONE, pix(0, 0, 0), vec![], pix(9, 9, 9));
    assert_eq!(r.err(), Some(GradientError::NoStops));
}

#[test]
fn new_rejects_stop_out_of_range() {
    let stops = vec![Stop::new(FP_ONE + 1, pix(1, 2, 3))];
    let r = Gradient::new(FP_ONE, pix(0, 0, 0), stops, pix(9, 9, 9));
    assert_eq!(r.err(), Some(GradientError::StopOutOfRange));
}

#[test]
fn new_rejects_unsorted_stops() {
    let stops = vec![
        Stop::new(FP_ONE / 2, pix(1, 2, 3)),
        Stop::new(FP_ONE / 4, pix(4, 5, 6)),
    ];
    let r = Gradient::new(FP_ONE, pix(0, 0, 0), stops, pix(9, 9, 9));
    assert_eq!(r.err(), Some(GradientError::UnsortedStops));
}

#[test]
fn color_at_zero_is_initial() {
    let g = simple_gradient(FP_ONE);
    assert_eq!(g.get_color(0), pix(0, 0, 0));
}

#[test]
fn color_at_zero_is_first_stop_when_stop_at_zero() {
    let stops = vec![Stop::new(0, pix(7, 8, 9)), Stop::new(FP_ONE / 2, pix(1, 1, 1))];
    let g = Gradient::new(FP_ONE, pix(0, 0, 0), stops, pix(9, 9, 9)).unwrap();
    assert_eq!(g.get_color(0), pix(7, 8, 9));
}

#[test]
fn color_at_one_is_end() {
    let g = simple_gradient(FP_ONE);
    assert_eq!(g.get_color(FP_ONE), pix(200, 100, 250));
}

#[test]
fn color_at_one_is_last_stop_when_stop_at_one() {
    let stops = vec![Stop::new(FP_ONE / 2, pix(1, 1, 1)), Stop::new(FP_ONE, pix(7, 8, 9))];
    let g = Gradient::new(FP_ONE, pix(0, 0, 0), stops, pix(9, 9, 9)).unwrap();
    assert_eq!(g.get_color(FP_ONE), pix(7, 8, 9));
}

#[test]
fn out_of_range_hues_clamp() {
    let g = simple_gradient(FP_ONE);
    assert_eq!(g.get_color(-12345), g.get_color(0));
    assert_eq!(g.get_color(FP_ONE + 999), g.get_color(FP_ONE));
}

#[test]
fn interpolates_exactly_at_quarter() {
    let g = simple_gradient(FP_ONE);
    // A quarter of the way is half way from the initial color to the
    // stop at one half: channels (0,0,0) -> (100,200,50) give (50,100,25).
    assert_eq!(g.get_color(FP_ONE / 4), Rgb { r: 50, g: 100, b: 25 });
}

#[test]
fn exact_stop_position_returns_stop_color() {
    let g = simple_gradient(FP_ONE);
    assert_eq!(g.get_color(FP_ONE / 2), pix(100, 200, 50));
}

#[test]
fn interpolates_exactly_at_three_quarters() {
    let g = simple_gradient(FP_ONE);
    // Half way from the stop (100,200,50) to the end (200,100,250).
    assert_eq!(g.get_color(3 * (FP_ONE / 4)), Rgb { r: 150, g: 150, b: 150 });
}

#[test]
fn half_period_repeats_the_pattern() {
    let g_full = simple_gradient(FP_ONE);
    let g_half = simple_gradient(FP_ONE / 2);
    // With a period of one half the pattern is traversed twice as fast.
    assert_eq!(g_half.get_color(FP_ONE / 8), g_full.get_color(FP_ONE / 4));
    assert_eq!(g_half.get_color(FP_ONE / 4), g_full.get_color(FP_ONE / 2));
}
