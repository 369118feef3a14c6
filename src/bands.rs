use vstd::prelude::*;

verus! {

/// Number of bands, and so of workers, that an image is split into.
pub const WORKERS: usize = 7;

/// A contiguous range of image rows, `row_start` included and `row_end`
/// excluded, that one worker renders on its own.
#[derive(Clone, Copy, Debug, PartialEq, Eq, Structural)]
pub struct Band {
    pub row_start: usize,
    pub row_end: usize,
}

/// Rows given to each band when `height` rows are shared among `workers`:
/// the integer quotient plus one, so that `workers` bands always suffice.
pub open spec fn rows_per_band_spec(height: nat, workers: nat) -> nat
    recommends
        workers >= 1,
{
    height / workers + 1
}

/// First row of band `i`: `i` full bands precede it, clipped to the image.
pub open spec fn band_start(height: nat, workers: nat, i: nat) -> nat
    recommends
        workers >= 1,
{
    let s = i * rows_per_band_spec(height, workers);
    if s < height {
        s
    } else {
        height
    }
}

/// Row after the last row of band `i`, which is where band `i + 1` starts.
pub open spec fn band_end(height: nat, workers: nat, i: nat) -> nat
    recommends
        workers >= 1,
{
    band_start(height, workers, i + 1)
}

/// Whether `row` lies in band `i`.
pub open spec fn in_band(height: nat, workers: nat, i: nat, row: nat) -> bool {
    band_start(height, workers, i) <= row < band_end(height, workers, i)
}

/// Whether some one of the `workers` bands holds `row`.
pub open spec fn row_covered(height: nat, workers: nat, row: nat) -> bool {
    exists|i: nat| i < workers && #[trigger] in_band(height, workers, i, row)
}

/// Number of rows that each band holds (the last ones may hold fewer).
pub fn rows_per_band(height: usize, workers: usize) -> (r: usize)
    requires
        workers >= 1,
        height / workers + 1 <= usize::MAX,
    ensures
        r == rows_per_band_spec(height as nat, workers as nat),
{
    height / workers + 1
}

/// Splits `height` rows into `workers` bands, in order: band `i` starts at
/// `band_start(height, workers, i)` and ends where band `i + 1` starts. The
/// trailing bands may be shorter than the others, or empty.
pub fn bands(height: usize, workers: usize) -> (r: Vec<Band>)
    requires
        workers >= 1,
        height / workers + 1 <= usize::MAX,
    ensures
        r@.len() == workers,
        forall|i: int|
            0 <= i < workers ==> (#[trigger] r@[i]).row_start == band_start(
                height as nat,
                workers as nat,
                i as nat,
            ) && r@[i].row_end == band_end(height as nat, workers as nat, i as nat),
{
    let per_band = rows_per_band(height, workers);
    let ghost h = height as nat;
    let ghost t = workers as nat;
    let mut out: Vec<Band> = Vec::new();
    let mut start: usize = 0;
    let mut i: usize = 0;
    while i < workers
        invariant
            i <= workers,
            workers >= 1,
            per_band == rows_per_band_spec(h, t),
            h == height,
            t == workers,
            out@.len() == i,
            start == band_start(h, t, i as nat),
            forall|k: int|
                0 <= k < i ==> (#[trigger] out@[k]).row_start == band_start(h, t, k as nat)
                    && out@[k].row_end == band_end(h, t, k as nat),
        decreases workers - i,
    {
        let end: usize = if height - start < per_band {
            height
        } else {
            start + per_band
        };
        proof {
            let p = rows_per_band_spec(h, t);
            assert(i as nat * p + p == (i as nat + 1) * p) by (nonlinear_arith);
            assert(i as nat * p <= (i as nat + 1) * p) by (nonlinear_arith);
        }
        assert(end == band_start(h, t, (i + 1) as nat));
        out.push(Band { row_start: start, row_end: end });
        start = end;
        i = i + 1;
    }
    out
}

/// Band starts never decrease: a later band starts no earlier.
proof fn lemma_band_start_monotone(height: nat, workers: nat, i: nat, j: nat)
    requires
        workers >= 1,
        i <= j,
    ensures
        band_start(height, workers, i) <= band_start(height, workers, j),
{
    let p = rows_per_band_spec(height, workers);
    assert(i * p <= j * p) by (nonlinear_arith)
        requires
            i <= j,
    ;
}

/// The `workers` bands cover the rows `0..height` exactly once: every row of
/// the image lies in one band, no row lies in two, and no band reaches past
/// the last row.
pub proof fn band_coverage(height: nat, workers: nat)
    requires
        workers >= 1,
    ensures
        forall|row: nat| row < height ==> #[trigger] row_covered(height, workers, row),
        forall|i: nat, j: nat, row: nat|
            i < j && #[trigger] in_band(height, workers, i, row) ==> !#[trigger] in_band(height, workers, j, row),
        forall|i: nat| i < workers ==> #[trigger] band_end(height, workers, i) <= height,
        band_start(height, workers, 0) == 0,
        band_end(height, workers, (workers - 1) as nat) == height,
{
    let p = rows_per_band_spec(height, workers);
    assert(workers * p > height) by (nonlinear_arith)
        requires
            workers >= 1,
            p == height / workers + 1,
    ;
    assert forall|row: nat| row < height implies #[trigger] row_covered(height, workers, row) by {
        let i = row / p;
        assert(i * p <= row < (i + 1) * p) by (nonlinear_arith)
            requires
                p >= 1,
                i == row / p,
        ;
        assert(i < workers) by (nonlinear_arith)
            requires
                i * p <= row,
                row < height,
                workers * p > height,
                p >= 1,
        ;
        assert(in_band(height, workers, i, row));
    }
    assert forall|i: nat, j: nat, row: nat|
        i < j && #[trigger] in_band(height, workers, i, row) implies !#[trigger] in_band(height, workers, j, row) by {
        lemma_band_start_monotone(height, workers, i + 1, j);
    }
    assert(0 * p == 0);
    assert(workers * p >= height);
}

} // verus!
