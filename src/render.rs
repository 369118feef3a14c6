use vstd::prelude::*;
use crate::bands::Band;

verus! {

/// Why a render cannot start or did not complete.
#[derive(Clone, Copy, Debug, PartialEq, Eq, Structural)]
pub enum RenderError {
    /// The image has no pixels, or more than a `usize` can count.
    InvalidBounds,
    /// The plane window's width or height span is not positive.
    DegeneratePlaneWindow,
    /// A band's worker ended abnormally; the whole image is then invalid.
    WorkerFailure,
}

/// Checks the image size before rendering and returns the length of its
/// buffer, one byte per pixel: `width * height`.
pub fn check_bounds(width: usize, height: usize) -> (r: Result<usize, RenderError>)
    ensures
        r == (if width == 0 || height == 0 || width * height > usize::MAX {
            Err(RenderError::InvalidBounds)
        } else {
            Ok((width * height) as usize)
        }),
{
    if width == 0 || height == 0 {
        return Err(RenderError::InvalidBounds);
    }
    match width.checked_mul(height) {
        Some(len) => Ok(len),
        None => Err(RenderError::InvalidBounds),
    }
}

/// Cap on the number of Newton steps taken for one pixel.
pub const MAX_COUNT: u32 = 255;

/// Amount by which each Newton step darkens a pixel.
pub const INTENSITY_SCALE: u32 = 15;

/// The byte that a pixel receives after `count` steps: `255 - count * 15`,
/// wrapped into the byte range (modulo 256) rather than clamped.
pub open spec fn intensity_spec(count: nat) -> int {
    (255 - count * 15) % 256
}

/// Byte written for a pixel whose loop stopped after `count` steps.
pub fn intensity(count: u32) -> (r: u8)
    requires
        count <= MAX_COUNT,
    ensures
        r as int == intensity_spec(count as nat),
{
    // 4095 = 255 + 15 * 256 keeps the subtraction non-negative and leaves the
    // residue modulo 256 unchanged.
    let v: u32 = 4095 - count * INTENSITY_SCALE;
    assert((255 - count * 15) % 256 == (v as int) % 256) by (nonlinear_arith)
        requires
            v == 4095 - count * 15,
    ;
    (v % 256) as u8
}

/// `orbit` records a run of the convergence loop that stopped after `count`
/// steps: it starts from the sample, each entry is a possible result of `step`
/// on the one before, no entry before the last was judged converged, and the
/// loop stopped because the cap was reached or the last entry converged.
pub open spec fn is_stopped_orbit<Z, C: Fn(&Z) -> bool, S: Fn(Z) -> Z>(
    orbit: Seq<Z>,
    z0: Z,
    converged: C,
    step: S,
    count: nat,
) -> bool {
    &&& orbit.len() == count + 1
    &&& orbit[0] == z0
    &&& forall|i: int| 0 <= i < count ==> #[trigger] step.ensures((orbit[i],), orbit[i + 1])
    &&& forall|i: int| 0 <= i < count ==> #[trigger] converged.ensures((&orbit[i],), false)
    &&& (count == MAX_COUNT || converged.ensures((&orbit[count as int],), true))
}

/// The convergence loop started at `z0` may stop after exactly `count` steps.
pub open spec fn stops_after<Z, C: Fn(&Z) -> bool, S: Fn(Z) -> Z>(
    z0: Z,
    converged: C,
    step: S,
    count: nat,
) -> bool {
    exists|orbit: Seq<Z>| is_stopped_orbit(orbit, z0, converged, step, count)
}

/// A sample that already lies within tolerance of a root stops the loop
/// before any step: its count is zero, and its pixel is the brightest byte,
/// 255.
pub proof fn converged_sample_stops_at_once<Z, C: Fn(&Z) -> bool, S: Fn(Z) -> Z>(
    z0: Z,
    converged: C,
    step: S,
    count: nat,
)
    requires
        forall|b: bool| #[trigger] converged.ensures((&z0,), b) ==> b,
        stops_after(z0, converged, step, count),
    ensures
        count == 0,
        intensity_spec(count) == 255,
{
    let orbit = choose|orbit: Seq<Z>| is_stopped_orbit(orbit, z0, converged, step, count);
    if count > 0 {
        assert(converged.ensures((&orbit[0],), false));
    }
}

/// Runs the convergence loop from the sample `z0`: while fewer than
/// `MAX_COUNT` steps were taken and `converged` says no, apply `step`.
/// Returns the number of steps taken, which never exceeds `MAX_COUNT`.
pub fn iteration_count<Z, C: Fn(&Z) -> bool, S: Fn(Z) -> Z>(z0: Z, converged: &C, step: &S) -> (r: u32)
    requires
        forall|z: Z| #[trigger] converged.requires((&z,)),
        forall|z: Z| #[trigger] step.requires((z,)),
    ensures
        r <= MAX_COUNT,
        stops_after(z0, *converged, *step, r as nat),
{
    let mut z = z0;
    let mut count: u32 = 0;
    let ghost mut orbit: Seq<Z> = seq![z0];
    loop
        invariant
            count <= MAX_COUNT,
            orbit.len() == count + 1,
            orbit[0] == z0,
            orbit[count as int] == z,
            forall|i: int| 0 <= i < count ==> #[trigger] step.ensures((orbit[i],), orbit[i + 1]),
            forall|i: int| 0 <= i < count ==> #[trigger] converged.ensures((&orbit[i],), false),
            forall|z: Z| #[trigger] converged.requires((&z,)),
            forall|z: Z| #[trigger] step.requires((z,)),
        decreases MAX_COUNT - count,
    {
        if count >= MAX_COUNT {
            assert(is_stopped_orbit(orbit, z0, *converged, *step, count as nat));
            return count;
        }
        let done = converged(&z);
        if done {
            assert(is_stopped_orbit(orbit, z0, *converged, *step, count as nat));
            return count;
        }
        z = step(z);
        proof {
            orbit = orbit.push(z);
        }
        count = count + 1;
    }
}

/// The byte at offset `i` of a band's buffer is what a pixel of that band
/// receives: its sample, taken at column `i % width` and absolute row
/// `row_start + i / width`, stops after some number of steps `count`, and the
/// byte is `intensity_spec(count)`.
pub open spec fn pixel_rendered<Z, P: Fn(usize, usize) -> Z, C: Fn(&Z) -> bool, S: Fn(Z) -> Z>(
    band: Band,
    width: nat,
    sample: P,
    converged: C,
    step: S,
    i: int,
    byte: u8,
) -> bool {
    exists|z0: Z, count: nat|
        {
            &&& sample.ensures(
                ((i % width as int) as usize, (band.row_start + i / width as int) as usize),
                z0,
            )
            &&& count <= MAX_COUNT
            &&& #[trigger] stops_after(z0, converged, step, count)
            &&& byte as int == intensity_spec(count)
        }
}

/// Renders one band into `chunk`, which holds the band's rows in row-major
/// order, `width` bytes per row. For each pixel it takes the sample point at
/// the pixel's column and absolute row, runs the convergence loop on it and
/// writes the resulting intensity at the pixel's offset within `chunk`.
pub fn render<Z, P: Fn(usize, usize) -> Z, C: Fn(&Z) -> bool, S: Fn(Z) -> Z>(
    chunk: &mut [u8],
    band: Band,
    width: usize,
    sample: &P,
    converged: &C,
    step: &S,
)
    requires
        width >= 1,
        band.row_start <= band.row_end,
        old(chunk)@.len() == (band.row_end - band.row_start) * width,
        forall|x: usize, y: usize| #[trigger] sample.requires((x, y)),
        forall|z: Z| #[trigger] converged.requires((&z,)),
        forall|z: Z| #[trigger] step.requires((z,)),
    ensures
        final(chunk)@.len() == old(chunk)@.len(),
        forall|i: int|
            0 <= i < final(chunk)@.len() ==> pixel_rendered(
                band,
                width as nat,
                *sample,
                *converged,
                *step,
                i,
                #[trigger] final(chunk)@[i],
            ),
{
    let len = chunk.len();
    let ghost rows: int = band.row_end - band.row_start;
    let mut i: usize = 0;
    while i < len
        invariant
            width >= 1,
            band.row_start <= band.row_end,
            rows == band.row_end - band.row_start,
            len == chunk@.len(),
            len == rows * width,
            i <= len,
            forall|x: usize, y: usize| #[trigger] sample.requires((x, y)),
            forall|z: Z| #[trigger] converged.requires((&z,)),
            forall|z: Z| #[trigger] step.requires((z,)),
            forall|k: int|
                0 <= k < i ==> pixel_rendered(
                    band,
                    width as nat,
                    *sample,
                    *converged,
                    *step,
                    k,
                    #[trigger] chunk@[k],
                ),
        decreases len - i,
    {
        let x = i % width;
        assert(i / width < rows) by (nonlinear_arith)
            requires
                i < rows * width,
                width >= 1,
        ;
        let y = band.row_start + i / width;
        let z0 = sample(x, y);
        let count = iteration_count(z0, converged, step);
        let byte = intensity(count);
        chunk[i] = byte;
        assert(pixel_rendered(band, width as nat, *sample, *converged, *step, i as int, byte));
        i = i + 1;
    }
}

} // verus!
