//! The camera: maps a logical view (center point and zoom exponent) to an
//! image-space origin and a per-pixel step, and generates the plane
//! coordinate of every pixel of a row.
//!
//! Plane coordinates are fixed-point numbers scaled by [`crate::FP_ONE`].
//! The base view spans four plane units on the longer image axis; a zoom
//! exponent `z` scales that extent by `2^z`.

use vstd::prelude::*;
use vstd::arithmetic::power2::{
    pow2, lemma_pow2_pos, lemma_pow2_unfold, lemma_pow2_strictly_increases, lemma2_to64,
    lemma2_to64_rest,
};

use crate::FP_ONE;

verus! {

/// Largest image dimension the camera accepts.
pub const MAX_DIM: u32 = 0x10000;

/// A point of the complex plane in fixed-point coordinates
/// (a value of [`FP_ONE`] stands for 1.0).
#[derive(Clone, Copy, Debug, PartialEq, Eq, Structural)]
pub struct PlanePoint {
    pub re: i64,
    pub im: i64,
}

/// A fixed view of the plane: a center point and a signed zoom exponent.
#[derive(Clone, Copy, Debug, PartialEq, Eq, Structural)]
pub struct Camera {
    pub center: PlanePoint,
    pub zoom: i32,
}

/// The plane extent of the base view (zoom 0) on the longer image axis,
/// in fixed-point units: four plane units.
pub open spec fn base_extent() -> int {
    4 * FP_ONE
}

/// The isotropic pixel step for a zoom exponent and the longer image
/// dimension: `4 * 2^zoom / maxdim` plane units, rounded down in
/// fixed-point arithmetic.
pub open spec fn pixel_size_spec(zoom: int, maxdim: int) -> int
    recommends
        maxdim >= 1,
{
    if zoom >= 0 {
        (base_extent() * pow2(zoom as nat)) / maxdim
    } else {
        base_extent() / (maxdim * pow2((-zoom) as nat))
    }
}

/// The plane coordinate of pixel `(x, y)` for a given origin and pixel
/// step, as a `(re, im)` pair of fixed-point values.
pub open spec fn point_at(origin: PlanePoint, p_size: int, x: int, y: int) -> (int, int) {
    (origin.re + p_size * x, origin.im + p_size * y)
}

/// The longer of the two image dimensions.
pub open spec fn max_dim_spec(width: u32, height: u32) -> int {
    if width >= height {
        width as int
    } else {
        height as int
    }
}

/// A camera is valid for an image when the dimensions and the zoom stay
/// in range, a zoomed-out view is still at least one pixel step wide,
/// and the center keeps a margin that rules out overflow.
pub open spec fn camera_valid(cam: Camera, width: u32, height: u32) -> bool {
    &&& 1 <= width <= MAX_DIM
    &&& 1 <= height <= MAX_DIM
    &&& -26 <= cam.zoom <= 10
    &&& cam.zoom < 0 ==> max_dim_spec(width, height) * pow2((-cam.zoom) as nat) <= base_extent()
    &&& -16 * FP_ONE <= cam.center.re <= 16 * FP_ONE
    &&& -16 * FP_ONE <= cam.center.im <= 16 * FP_ONE
}

/// `2^e` as an executable value.
fn pow2_exec(e: u32) -> (r: u64)
    requires
        e <= 40,
    ensures
        r == pow2(e as nat),
{
    let mut r: u64 = 1;
    let mut i: u32 = 0;
    proof {
        assert(pow2(0) == 1) by {
            lemma2_to64();
        }
    }
    while i < e
        invariant
            i <= e <= 40,
            r == pow2(i as nat),
        decreases e - i,
    {
        proof {
            lemma_pow2_strictly_increases(i as nat, 40);
            lemma2_to64_rest();
            lemma_pow2_unfold((i + 1) as nat);
        }
        r = 2 * r;
        i = i + 1;
    }
    r
}

impl Camera {
    /// Builds a camera from a center point and a zoom exponent.
    pub fn new(center: PlanePoint, zoom: i32) -> (cam: Camera)
        ensures
            cam == (Camera { center, zoom }),
    {
        Camera { center, zoom }
    }

    /// Computes the plane coordinate of pixel `(0, 0)` and the isotropic
    /// pixel step for an image of the given dimensions.  The step is
    /// always positive, and the origin places the center of the view at
    /// the middle pixel of the image.
    pub fn find_origin_and_pixel_size(&self, width: u32, height: u32) -> (r: (PlanePoint, i64))
        requires
            camera_valid(*self, width, height),
        ensures
            r.1 == pixel_size_spec(self.zoom as int, max_dim_spec(width, height)),
            1 <= r.1 <= base_extent() * 0x800,
            r.0.re == self.center.re - r.1 * (width as int / 2),
            r.0.im == self.center.im - r.1 * (height as int / 2),
    {
        let maxdim: u32 = if width >= height {
            width
        } else {
            height
        };
        let p_size: i64;
        if self.zoom >= 0 {
            let scale: u64 = pow2_exec(self.zoom as u32);
            proof {
                lemma_pow2_pos(self.zoom as nat);
                lemma_pow2_strictly_increases(self.zoom as nat, 11);
                assert(pow2(11) == 0x800) by {
                    lemma2_to64();
                }
            }
            let num: i64 = 4 * FP_ONE * (scale as i64);
            p_size = num / (maxdim as i64);
            proof {
                assert(num as int >= base_extent()) by (nonlinear_arith)
                    requires
                        num as int == base_extent() * pow2(self.zoom as nat),
                        pow2(self.zoom as nat) >= 1,
                        base_extent() >= 0,
                ;
                assert(num as int / (maxdim as int) >= 1) by (nonlinear_arith)
                    requires
                        1 <= maxdim as int <= 0x10000,
                        num as int >= 0x400_0000,
                ;
                assert(num as int / (maxdim as int) <= num as int) by (nonlinear_arith)
                    requires
                        num as int >= 0,
                        maxdim as int >= 1,
                ;
            }
        } else {
            let scale: u64 = pow2_exec((0i32 - self.zoom) as u32);
            proof {
                lemma_pow2_pos((-self.zoom) as nat);
                assert(maxdim as int * pow2((-self.zoom) as nat) <= base_extent());
                assert(maxdim as int * pow2((-self.zoom) as nat) >= 1) by (nonlinear_arith)
                    requires
                        maxdim as int >= 1,
                        pow2((-self.zoom) as nat) >= 1,
                ;
            }
            let shifted: u64 = (maxdim as u64) * scale;
            p_size = (4 * FP_ONE) / (shifted as i64);
            proof {
                assert((4 * FP_ONE) as int / (shifted as int) >= 1) by (nonlinear_arith)
                    requires
                        1 <= shifted as int <= 0x400_0000,
                ;
                assert((4 * FP_ONE) as int / (shifted as int) <= 0x400_0000) by (nonlinear_arith)
                    requires
                        1 <= shifted as int,
                ;
            }
        }
        let halfw: i64 = (width / 2) as i64;
        let halfh: i64 = (height / 2) as i64;
        proof {
            assert(0 <= p_size as int * (halfw as int) <= 0x20_0000_0000 * 0x8000)
                by (nonlinear_arith)
                requires
                    1 <= p_size as int <= 0x20_0000_0000,
                    0 <= halfw as int <= 0x8000,
            ;
            assert(0 <= p_size as int * (halfh as int) <= 0x20_0000_0000 * 0x8000)
                by (nonlinear_arith)
                requires
                    1 <= p_size as int <= 0x20_0000_0000,
                    0 <= halfh as int <= 0x8000,
            ;
        }
        let ox: i64 = self.center.re - p_size * halfw;
        let oy: i64 = self.center.im - p_size * halfh;
        (PlanePoint { re: ox, im: oy }, p_size)
    }
}

/// The plane coordinates of every pixel of row `row`: column `x` maps to
/// `origin + p_size * (x, row)`.
pub fn get_row_points(origin: PlanePoint, p_size: i64, row: u32, width: u32) -> (points: Vec<
    PlanePoint,
>)
    requires
        1 <= p_size <= base_extent() * 0x800,
        width <= MAX_DIM,
        row <= MAX_DIM,
        -0x4000_0000_0000_0000 <= origin.re <= 0x4000_0000_0000_0000,
        -0x4000_0000_0000_0000 <= origin.im <= 0x4000_0000_0000_0000,
    ensures
        points@.len() == width,
        forall|x: int|
            #![trigger points@[x]]
            0 <= x < width ==> points@[x].re == origin.re + p_size * x && points@[x].im
                == origin.im + p_size * row,
{
    proof {
        assert(0 <= p_size as int * (row as int) <= 0x20_0000_0000 * 0x10000) by (nonlinear_arith)
            requires
                1 <= p_size as int <= 0x20_0000_0000,
                0 <= row as int <= 0x10000,
        ;
    }
    let im: i64 = origin.im + p_size * (row as i64);
    let mut points: Vec<PlanePoint> = Vec::new();
    let mut x: u32 = 0;
    while x < width
        invariant
            x <= width <= MAX_DIM,
            1 <= p_size <= base_extent() * 0x800,
            -0x4000_0000_0000_0000 <= origin.re <= 0x4000_0000_0000_0000,
            points@.len() == x,
            im == origin.im + p_size as int * row as int,
            forall|i: int|
                #![trigger points@[i]]
                0 <= i < x ==> points@[i].re == origin.re + p_size * i && points@[i].im == im,
        decreases width - x,
    {
        proof {
            assert(0 <= p_size as int * (x as int) <= 0x20_0000_0000 * 0x10000)
                by (nonlinear_arith)
                requires
                    1 <= p_size as int <= 0x20_0000_0000,
                    0 <= x as int <= 0x10000,
            ;
        }
        let re: i64 = origin.re + p_size * (x as i64);
        points.push(PlanePoint { re, im });
        x = x + 1;
    }
    points
}

/// The plane coordinate of pixel `(0, 0)` is exactly the origin returned
/// by the camera, whatever the pixel step is.
pub proof fn lemma_pixel_zero_is_origin(origin: PlanePoint, p_size: int)
    ensures
        point_at(origin, p_size, 0, 0) == (origin.re as int, origin.im as int),
{
}

} // verus!
