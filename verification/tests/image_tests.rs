use fractal_plot::color::pix;
use fractal_plot::gradient::{Gradient, Stop};
use fractal_plot::image::{make_image, normalize_plot};
use fractal_plot::FP_ONE;

fn test_gradient() -> Gradient {
    let stops = vec![Stop::new(FP_ONE / 2, pix(100, 200, 50))];
    Gradient::new(FP_ONE, pix(0, 0, 0), stops, pix(200, 100, 250)).unwrap()
}

#[test]
fn normalize_plot_divides_by_the_cap() {
    let plot: Vec<Vec<u32>> = vec![vec![0, 500], vec![1000, 250]];
    let hues = normalize_plot(&plot, 1000);
    assert_eq!(hues[0][0], 0);
    assert_eq!(hues[0][1], FP_ONE / 2);
    assert_eq!(hues[1][0], FP_ONE);
    assert_eq!(hues[1][1], FP_ONE / 4);
}

#[test]
fn normalize_plot_lets_metrics_above_the_cap_exceed_one() {
    let plot: Vec<Vec<u32>> = vec![vec![30]];
    let hues = normalize_plot(&plot, 10);
    assert_eq!(hues[0][0], 3 * FP_ONE);
}

#[test]
fn make_image_colors_every_pixel() {
    let grad = test_gradient();
    // Hues: [x][y] layout, 2 wide and 2 tall.
    let hues: Vec<Vec<i64>> = vec![vec![0, FP_ONE / 2], vec![FP_ONE / 4, FP_ONE]];
    let img = make_image(&hues, &grad);
    assert_eq!(img.get_width(), 2);
    assert_eq!(img.get_height(), 2);
    assert_eq!(img.get_pixel(0, 0), bmp::Pixel { r: 0, g: 0, b: 0 });
    assert_eq!(img.get_pixel(0, 1), bmp::Pixel { r: 100, g: 200, b: 50 });
    assert_eq!(img.get_pixel(1, 0), bmp::Pixel { r: 50, g: 100, b: 25 });
    assert_eq!(img.get_pixel(1, 1), bmp::Pixel { r: 200, g: 100, b: 250 });
}

#[test]
fn make_image_clamps_hues_beyond_the_range() {
    let grad = test_gradient();
    let hues: Vec<Vec<i64>> = vec![vec![2 * FP_ONE], vec![-FP_ONE]];
    let img = make_image(&hues, &grad);
    // Above the range: the end color; below it: the initial color.
    assert_eq!(img.get_pixel(0, 0), bmp::Pixel { r: 200, g: 100, b: 250 });
    assert_eq!(img.get_pixel(1, 0), bmp::Pixel { r: 0, g: 0, b: 0 });
}
