//! Rendering a finished plot into a raster image: normalizes iteration
//! counts into hues, looks each hue up in the gradient, and writes the
//! colors into a `bmp` image, pixel by pixel.
//!
//! The `bmp` image itself is an opaque pixel container; what the library
//! knows of it is stated over the names [`image_width`], [`image_height`]
//! and [`image_pix`].

use vstd::prelude::*;

use crate::FP_ONE;
use crate::color::Rgb;
use crate::gradient::Gradient;

verus! {

/// bmp's in-memory image, an opaque pixel container.
#[verifier::external_type_specification]
#[verifier::external_body]
pub struct ExImage(bmp::Image);

/// The width the image was created with.
pub uninterp spec fn image_width(img: bmp::Image) -> int;

/// The height the image was created with.
pub uninterp spec fn image_height(img: bmp::Image) -> int;

/// What the image holds: the pixel at each coordinate, as an
/// `(r, g, b)` triple.
pub uninterp spec fn image_pix(img: bmp::Image) -> Map<(int, int), (u8, u8, u8)>;

/// A color as the `(r, g, b)` triple an image holds.
pub open spec fn rgb_triple(c: Rgb) -> (u8, u8, u8) {
    (c.r, c.g, c.b)
}

/// Relies on bmp::Image::new: builds a `width` x `height` image with
/// every pixel black.
#[verifier::external_body]
fn new_image(width: u32, height: u32) -> (img: bmp::Image)
    requires
        1 <= width <= 0x4000,
        1 <= height <= 0x4000,
    ensures
        image_width(img) == width,
        image_height(img) == height,
        forall|x: int, y: int|
            #![trigger image_pix(img)[(x, y)]]
            0 <= x < width && 0 <= y < height ==> image_pix(img)[(x, y)] == (0u8, 0u8, 0u8),
{
    bmp::Image::new(width, height)
}

/// Relies on bmp::Image::set_pixel: stores the value at `(x, y)` and
/// leaves every other pixel and the dimensions unchanged.
#[verifier::external_body]
fn set_image_pixel(img: &mut bmp::Image, x: u32, y: u32, c: Rgb)
    requires
        x < image_width(*old(img)),
        y < image_height(*old(img)),
    ensures
        image_width(*final(img)) == image_width(*old(img)),
        image_height(*final(img)) == image_height(*old(img)),
        image_pix(*final(img)) == image_pix(*old(img)).insert(
            (x as int, y as int),
            (c.r, c.g, c.b),
        ),
{
    img.set_pixel(x, y, bmp::Pixel { r: c.r, g: c.g, b: c.b });
}

/// The fixed-point hue of a metric under linear normalization:
/// `metric / max_iters` in units of [`FP_ONE`], rounded down.
pub open spec fn hue_of(metric: u32, max_iters: u32) -> int
    recommends
        max_iters >= 1,
{
    (metric * (FP_ONE as int)) / (max_iters as int)
}

/// Normalizes a plot of iteration counts into fixed-point hues, cell by
/// cell.  A metric above the cap yields a hue above [`FP_ONE`], which
/// the gradient later clamps.
#[verifier::loop_isolation(false)]
pub fn normalize_plot(plot: &Vec<Vec<u32>>, max_iters: u32) -> (hues: Vec<Vec<i64>>)
    requires
        max_iters >= 1,
    ensures
        hues@.len() == plot@.len(),
        forall|x: int| 0 <= x < plot@.len() ==> (#[trigger] hues@[x])@.len() == plot@[x]@.len(),
        forall|x: int, y: int|
            #![trigger hues@[x]@[y]]
            0 <= x < plot@.len() && 0 <= y < plot@[x]@.len() ==> hues@[x]@[y] == hue_of(
                plot@[x]@[y],
                max_iters,
            ),
{
    let mut hues: Vec<Vec<i64>> = Vec::new();
    let mut x: usize = 0;
    while x < plot.len()
        invariant
            x <= plot@.len(),
            hues@.len() == x,
            forall|i: int| 0 <= i < x ==> (#[trigger] hues@[i])@.len() == plot@[i]@.len(),
            forall|i: int, y: int|
                #![trigger hues@[i]@[y]]
                0 <= i < x && 0 <= y < plot@[i]@.len() ==> hues@[i]@[y] == hue_of(
                    plot@[i]@[y],
                    max_iters,
                ),
        decreases plot@.len() - x,
    {
        let col = &plot[x];
        let mut hue_col: Vec<i64> = Vec::new();
        let mut y: usize = 0;
        while y < col.len()
            invariant
                y <= col@.len(),
                col@ == plot@[x as int]@,
                x < plot@.len(),
                hue_col@.len() == y,
                forall|j: int|
                    0 <= j < y ==> #[trigger] hue_col@[j] == hue_of(col@[j], max_iters),
            decreases col@.len() - y,
        {
            let metric: u32 = col[y];
            let hue: i64 = ((metric as i64) * FP_ONE) / (max_iters as i64);
            hue_col.push(hue);
            y = y + 1;
        }
        hues.push(hue_col);
        x = x + 1;
    }
    hues
}

/// Renders fixed-point hues into a raster image: the pixel at `(x, y)`
/// is the gradient's color for the hue of cell `[x][y]`.
#[verifier::loop_isolation(false)]
pub fn make_image(hues: &Vec<Vec<i64>>, grad: &Gradient) -> (img: bmp::Image)
    requires
        grad.wf(),
        1 <= hues@.len() <= 0x4000,
        forall|x: int| 0 <= x < hues@.len() ==> (#[trigger] hues@[x])@.len() == hues@[0]@.len(),
        1 <= hues@[0]@.len() <= 0x4000,
    ensures
        image_width(img) == hues@.len(),
        image_height(img) == hues@[0]@.len(),
        forall|x: int, y: int|
            #![trigger image_pix(img)[(x, y)]]
            0 <= x < hues@.len() && 0 <= y < hues@[0]@.len() ==> image_pix(img)[(x, y)]
                == rgb_triple(grad.color_at(hues@[x]@[y] as int)),
{
    let width_us: usize = hues.len();
    let width: u32 = width_us as u32;
    let height_us: usize = hues[0].len();
    let height: u32 = height_us as u32;
    let mut img = new_image(width, height);
    let mut x: u32 = 0;
    while x < width
        invariant
            x <= width,
            image_width(img) == width,
            image_height(img) == height,
            forall|i: int, y: int|
                #![trigger image_pix(img)[(i, y)]]
                0 <= i < x && 0 <= y < height ==> image_pix(img)[(i, y)] == rgb_triple(
                    grad.color_at(hues@[i]@[y] as int),
                ),
        decreases width - x,
    {
        let col = &hues[x as usize];
        let mut y: u32 = 0;
        while y < height
            invariant
                x < width,
                y <= height,
                col@ == hues@[x as int]@,
                image_width(img) == width,
                image_height(img) == height,
                forall|i: int, j: int|
                    #![trigger image_pix(img)[(i, j)]]
                    0 <= i < x && 0 <= j < height ==> image_pix(img)[(i, j)] == rgb_triple(
                        grad.color_at(hues@[i]@[j] as int),
                    ),
                forall|j: int|
                    #![trigger image_pix(img)[(x as int, j)]]
                    0 <= j < y ==> image_pix(img)[(x as int, j)] == rgb_triple(
                        grad.color_at(hues@[x as int]@[j] as int),
                    ),
            decreases height - y,
        {
            let c: Rgb = grad.get_color(col[y as usize]);
            set_image_pixel(&mut img, x, y, c);
            y = y + 1;
        }
        x = x + 1;
    }
    img
}

} // verus!
