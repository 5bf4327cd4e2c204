//! Assembly of the output image from the per-pixel hit reports.
//!
//! Pixels are taken in row-major order: pixel `y * width + x` is the one at
//! column `x` of row `y`, row 0 at the top. For each pixel the caller hands
//! over what every scene object reported for that pixel's primary ray, and
//! for each object its flat colour as RGBA8 bytes.
use vstd::prelude::*;
use crate::hit::{cast_ray, first_fault, lemma_nearest_is_first_least, nearest, DistanceError};
use crate::image_io::{rgba8_from_raw, rgba8_image};

verus! {

/// Why a frame cannot be rendered.
#[derive(Debug, Clone, Copy, PartialEq, Eq, Structural)]
pub enum RenderError {
    /// The viewport is not wider than it is tall.
    NotLandscape,
    /// An object reported an unusable distance.
    Distance(DistanceError),
}

/// The background: transparent black.
pub open spec fn background() -> Seq<u8> {
    seq![0u8, 0u8, 0u8, 0u8]
}

/// The four bytes of one pixel: the colour of the nearest object hit, or the
/// background when every object missed.
pub open spec fn pixel_bytes(hits: Seq<Option<u64>>, palette: Seq<[u8; 4]>) -> Seq<u8> {
    match nearest(hits) {
        Some(i) => palette[i]@,
        None => background(),
    }
}

/// The bytes of the first `n` pixels.
pub open spec fn frame_upto(rows: Seq<Vec<Option<u64>>>, palette: Seq<[u8; 4]>, n: int) -> Seq<
    u8,
>
    decreases n,
{
    if n <= 0 {
        Seq::empty()
    } else {
        frame_upto(rows, palette, n - 1) + pixel_bytes(rows[n - 1]@, palette)
    }
}

pub open spec fn frame_bytes(rows: Seq<Vec<Option<u64>>>, palette: Seq<[u8; 4]>) -> Seq<u8> {
    frame_upto(rows, palette, rows.len() as int)
}

/// The first fault among the reports of the first `n` pixels.
pub open spec fn frame_fault_upto(rows: Seq<Vec<Option<u64>>>, n: int) -> Option<DistanceError>
    decreases n,
{
    if n <= 0 {
        None
    } else {
        match frame_fault_upto(rows, n - 1) {
            Some(e) => Some(e),
            None => first_fault(rows[n - 1]@),
        }
    }
}

pub open spec fn frame_fault(rows: Seq<Vec<Option<u64>>>) -> Option<DistanceError> {
    frame_fault_upto(rows, rows.len() as int)
}

/// Every pixel's reports name one entry per object of the palette.
pub open spec fn rows_match_palette(rows: Seq<Vec<Option<u64>>>, palette: Seq<[u8; 4]>) -> bool {
    forall|p: int| 0 <= p < rows.len() ==> #[trigger] rows[p]@.len() == palette.len()
}

proof fn lemma_frame_fault_persists(rows: Seq<Vec<Option<u64>>>, n: int, m: int)
    requires
        0 <= n <= m,
        frame_fault_upto(rows, n) is Some,
    ensures
        frame_fault_upto(rows, m) == frame_fault_upto(rows, n),
    decreases m - n,
{
    if n < m {
        lemma_frame_fault_persists(rows, n, m - 1);
    }
}

proof fn lemma_frame_len(rows: Seq<Vec<Option<u64>>>, palette: Seq<[u8; 4]>, n: int)
    requires
        0 <= n,
    ensures
        frame_upto(rows, palette, n).len() == 4 * n,
    decreases n,
{
    if n > 0 {
        lemma_frame_len(rows, palette, n - 1);
    }
}

/// The viewport check made once before rendering: the image must be wider
/// than it is tall.
pub fn check_viewport(width: u32, height: u32) -> (r: Result<(), RenderError>)
    ensures
        width > height ==> r is Ok,
        width <= height ==> r == Err::<(), RenderError>(RenderError::NotLandscape),
{
    if width > height {
        Ok(())
    } else {
        Err(RenderError::NotLandscape)
    }
}

/// The RGBA8 bytes of the whole frame, four per pixel in row-major order,
/// or the first fault found among the reports.
pub fn render_pixels(rows: &Vec<Vec<Option<u64>>>, palette: &Vec<[u8; 4]>) -> (r: Result<
    Vec<u8>,
    DistanceError,
>)
    requires
        rows_match_palette(rows@, palette@),
    ensures
        match frame_fault(rows@) {
            Some(e) => r == Err::<Vec<u8>, DistanceError>(e),
            None => r is Ok && r->Ok_0@ == frame_bytes(rows@, palette@),
        },
{
    let mut out: Vec<u8> = Vec::new();
    let mut p: usize = 0;
    while p < rows.len()
        invariant
            0 <= p <= rows@.len(),
            rows_match_palette(rows@, palette@),
            frame_fault_upto(rows@, p as int) is None,
            out@ == frame_upto(rows@, palette@, p as int),
        decreases rows@.len() - p,
    {
        let row = &rows[p];
        assert(row@.len() == palette@.len());
        match cast_ray(row) {
            Err(e) => {
                proof {
                    lemma_frame_fault_persists(rows@, p + 1, rows@.len() as int);
                }
                return Err(e);
            },
            Ok(Some(i)) => {
                proof {
                    lemma_nearest_is_first_least(row@);
                }
                let c = palette[i];
                out.push(c[0]);
                out.push(c[1]);
                out.push(c[2]);
                out.push(c[3]);
                assert(c@ =~= seq![c[0], c[1], c[2], c[3]]);
            },
            Ok(None) => {
                out.push(0u8);
                out.push(0u8);
                out.push(0u8);
                out.push(0u8);
            },
        }
        assert(out@ =~= frame_upto(rows@, palette@, p + 1));
        p = p + 1;
    }
    Ok(out)
}

/// Renders a `width` by `height` frame. `rows[y * width + x]` holds what
/// each object reported for the primary ray of pixel `(x, y)`, and
/// `palette[i]` the RGBA8 colour of object `i`.
pub fn render(width: u32, height: u32, rows: &Vec<Vec<Option<u64>>>, palette: &Vec<[u8; 4]>) -> (r:
    Result<image::DynamicImage, RenderError>)
    requires
        rows@.len() == width * height,
        rows_match_palette(rows@, palette@),
    ensures
        width <= height ==> r == Err::<image::DynamicImage, RenderError>(RenderError::NotLandscape),
        width > height ==> match frame_fault(rows@) {
            Some(e) => r == Err::<image::DynamicImage, RenderError>(RenderError::Distance(e)),
            None => r == Ok::<image::DynamicImage, RenderError>(
                rgba8_image(width, height, frame_bytes(rows@, palette@)),
            ),
        },
{
    match check_viewport(width, height) {
        Err(e) => {
            return Err(e);
        },
        Ok(()) => {},
    }
    match render_pixels(rows, palette) {
        Err(e) => Err(RenderError::Distance(e)),
        Ok(bytes) => {
            proof {
                lemma_frame_len(rows@, palette@, rows@.len() as int);
                assert(4 * width * height == 4 * (width * height)) by (nonlinear_arith);
            }
            match rgba8_from_raw(width, height, bytes) {
                Some(img) => Ok(img),
                None => {
                    // Four bytes per pixel always fill the image: no such case.
                    proof {
                        assert(false);
                    }
                    Err(RenderError::NotLandscape)
                },
            }
        },
    }
}

} // verus!
