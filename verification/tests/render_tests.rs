use fractal_plot::engine::assemble_plot;
use fractal_plot::render::{get_row_points, Camera, PlanePoint};
use fractal_plot::FP_ONE;

#[test]
fn camera_pixel_size_and_origin_at_zoom_zero() {
    // Four plane units across four pixels: one plane unit per pixel,
    // origin two units left and one unit up from the center.
    let cam = Camera::new(PlanePoint { re: 0, im: 0 }, 0);
    let (origin, p_size) = cam.find_origin_and_pixel_size(4, 2);
    assert_eq!(p_size, FP_ONE);
    assert_eq!(origin, PlanePoint { re: -2 * FP_ONE, im: -FP_ONE });
}

#[test]
fn camera_zoom_out_halves_the_pixel_size() {
    let cam = Camera::new(PlanePoint { re: 0, im: 0 }, -1);
    let (_, p_size) = cam.find_origin_and_pixel_size(16, 8);
    // 4 * 2^-1 plane units over 16 pixels.
    assert_eq!(p_size, FP_ONE / 8);
}

#[test]
fn camera_zoom_in_doubles_the_extent() {
    let cam = Camera::new(PlanePoint { re: FP_ONE, im: -FP_ONE }, 1);
    let (origin, p_size) = cam.find_origin_and_pixel_size(8, 8);
    // 4 * 2^1 plane units over 8 pixels: one unit per pixel.
    assert_eq!(p_size, FP_ONE);
    assert_eq!(origin, PlanePoint { re: -3 * FP_ONE, im: -5 * FP_ONE });
}

#[test]
fn row_points_step_along_the_row() {
    let origin = PlanePoint { re: -2 * FP_ONE, im: -FP_ONE };
    let row0 = get_row_points(origin, FP_ONE, 0, 4);
    assert_eq!(row0.len(), 4);
    for x in 0..4i64 {
        assert_eq!(row0[x as usize].re, -2 * FP_ONE + x * FP_ONE);
        assert_eq!(row0[x as usize].im, -FP_ONE);
    }
    let row1 = get_row_points(origin, FP_ONE, 1, 4);
    for x in 0..4usize {
        assert_eq!(row1[x].im, 0);
    }
}

#[test]
fn end_to_end_tiny_plot_matches_hand_computation() {
    // A 4 x 2 image centered on the origin with one plane unit per
    // pixel, and a trivial evaluator: the cap inside the unit circle,
    // zero outside it.
    let width: u32 = 4;
    let height: u32 = 2;
    let cap: f32 = 9.0;
    let cam = Camera::new(PlanePoint { re: 0, im: 0 }, 0);
    let (origin, p_size) = cam.find_origin_and_pixel_size(width, height);
    let mut batches: Vec<Vec<(u32, u32, f32)>> = Vec::new();
    for y in 0..height {
        let points = get_row_points(origin, p_size, y, width);
        let mut batch: Vec<(u32, u32, f32)> = Vec::new();
        for x in 0..width {
            let re = points[x as usize].re as f64 / FP_ONE as f64;
            let im = points[x as usize].im as f64 / FP_ONE as f64;
            let metric = if (re * re + im * im).sqrt() < 1.0 { cap } else { 0.0 };
            batch.push((x, y, metric));
        }
        batches.push(batch);
    }
    let plot = assemble_plot(width, height, &batches).unwrap();
    // Row 0 lies on im = -1: no point is inside the unit circle.
    // Row 1 lies on im = 0: only re = 0, at pixel x = 2, is inside.
    for x in 0..width as usize {
        assert_eq!(plot[x][0], 0.0);
        let expected = if x == 2 { cap } else { 0.0 };
        assert_eq!(plot[x][1], expected);
    }
}
