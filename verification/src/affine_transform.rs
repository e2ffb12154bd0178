//! Resampling of an image through an inverse transform: every output pixel
//! is interpolated from a 4 × 4 neighborhood of the input.

use crate::array::Array3;
use crate::error::{Error, ImageKind};
use crate::image::Image;
use vstd::prelude::*;

verus! {

/// The cell of channel `c` at `(x, y)`, or `zero` where `(x, y)` lies
/// outside the image.
pub open spec fn tap<T>(src: &Array3<T>, x: int, y: int, c: int, zero: T) -> T {
    if 0 <= x < src.height() && 0 <= y < src.width() {
        src.at(x, y, c)
    } else {
        zero
    }
}

/// The 4 × 4 neighborhood of channel `c` whose top-left corner is
/// `(x, y)`, row by row; cells outside the image count as `zero`.
pub open spec fn neighborhood<T>(src: &Array3<T>, x: int, y: int, c: int, zero: T) -> Seq<T> {
    Seq::new(16, |n: int| tap(src, x + n / 4, y + n % 4, c, zero))
}

/// Copies the 4 × 4 neighborhood of channel `c` whose top-left corner is
/// `(x, y)`.
pub fn gather_neighborhood<T: Copy>(src: &Array3<T>, x: isize, y: isize, c: usize, zero: T) -> (r:
    Vec<T>)
    requires
        src.wf(),
        c < src.channels(),
    ensures
        r@ == neighborhood(src, x as int, y as int, c as int, zero),
{
    let (h, w, _) = src.dim();
    let mut r: Vec<T> = Vec::new();
    let mut i: usize = 0;
    while i < 4
        invariant
            src.wf(),
            c < src.channels(),
            h == src.height(),
            w == src.width(),
            i <= 4,
            r@.len() == i * 4,
            forall|n: int|
                0 <= n < r@.len() ==> r@[n] == tap(
                    src,
                    x + n / 4,
                    y + n % 4,
                    c as int,
                    zero,
                ),
        decreases 4 - i,
    {
        let mut j: usize = 0;
        while j < 4
            invariant
                src.wf(),
                c < src.channels(),
                h == src.height(),
                w == src.width(),
                i < 4,
                j <= 4,
                r@.len() == i * 4 + j,
                forall|n: int|
                    0 <= n < r@.len() ==> r@[n] == tap(
                        src,
                        x + n / 4,
                        y + n % 4,
                        c as int,
                        zero,
                    ),
            decreases 4 - j,
        {
            // Treat neighbor pixels out of image as black.
            let px = x as i128 + i as i128;
            let py = y as i128 + j as i128;
            let v = if 0 <= px && px < h as i128 && 0 <= py && py < w as i128 {
                src.get(px as usize, py as usize, c)
            } else {
                zero
            };
            r.push(v);
            j += 1;
        }
        i += 1;
    }
    proof {
        assert(r@ =~= neighborhood(src, x as int, y as int, c as int, zero));
    }
    r
}

/// Whether `f` may return `v` when handed a neighborhood holding `taps`
/// and the fraction `at`.
pub open spec fn may_interpolate<T, P, F: Fn(&Vec<T>, &P) -> T>(
    f: &F,
    taps: Seq<T>,
    at: P,
    v: T,
) -> bool {
    exists|a: Vec<T>| a@ == taps && #[trigger] call_ensures(*f, (&a, &at), v)
}

/// Whether `v` may be the interpolation of a 4 × 4 neighborhood at the
/// place `at`: `cubic` is applied along each of the four rows at the
/// place's second coordinate, and then across the four results at its
/// first.
pub open spec fn interpolated<T, P, F: Fn(&Vec<T>, &P) -> T>(
    cubic: &F,
    taps: Seq<T>,
    at: (P, P),
    v: T,
) -> bool {
    exists|rows: Seq<T>|
        {
            &&& rows.len() == 4
            &&& forall|i: int|
                0 <= i < 4 ==> may_interpolate(
                    cubic,
                    taps.subrange(4 * i, 4 * i + 4),
                    at.1,
                    #[trigger] rows[i],
                )
            &&& #[trigger] may_interpolate(cubic, rows, at.0, v)
        }
}

/// Interpolates in a 4 × 4 neighborhood, one axis after the other:
/// `cubic` along each of the four rows, then across the four results.
pub fn interpolate<T: Copy, P, F: Fn(&Vec<T>, &P) -> T>(taps: &Vec<T>, at: &(P, P), cubic: &F) -> (v:
    T)
    requires
        taps@.len() == 16,
        forall|y: &Vec<T>, t: &P| y@.len() == 4 ==> call_requires(*cubic, (y, t)),
    ensures
        interpolated(cubic, taps@, *at, v),
{
    let mut xsamples: Vec<T> = Vec::new();
    let mut i: usize = 0;
    while i < 4
        invariant
            i <= 4,
            taps@.len() == 16,
            xsamples@.len() == i,
            forall|y: &Vec<T>, t: &P| y@.len() == 4 ==> call_requires(*cubic, (y, t)),
            forall|r: int|
                0 <= r < i ==> may_interpolate(
                    cubic,
                    taps@.subrange(4 * r, 4 * r + 4),
                    at.1,
                    #[trigger] xsamples@[r],
                ),
        decreases 4 - i,
    {
        let mut ysamples: Vec<T> = Vec::new();
        ysamples.push(taps[i * 4]);
        ysamples.push(taps[i * 4 + 1]);
        ysamples.push(taps[i * 4 + 2]);
        ysamples.push(taps[i * 4 + 3]);
        proof {
            assert(ysamples@ =~= taps@.subrange(4 * i, 4 * i + 4));
        }
        let x = cubic(&ysamples, &at.1);
        let ghost before = xsamples@;
        xsamples.push(x);
        proof {
            assert forall|r: int| 0 <= r < i + 1 implies may_interpolate(
                cubic,
                taps@.subrange(4 * r, 4 * r + 4),
                at.1,
                #[trigger] xsamples@[r],
            ) by {
                if r < i {
                    assert(xsamples@[r] == before[r]);
                }
            }
        }
        i += 1;
    }
    let v = cubic(&xsamples, &at.0);
    proof {
        let rows = xsamples@;
        assert(may_interpolate(cubic, rows, at.0, v));
        assert(rows.len() == 4);
    }
    v
}

/// Whether `v` may be the output cell of channel `c` at `(x, y)`:
/// `locate` gives a corner and a place for the pixel, and `interpolate`
/// turns the neighborhood at that corner and the place into `v`.
pub open spec fn may_sample<
    T,
    P,
    L: Fn(usize, usize) -> (isize, isize, P),
    I: Fn(&Vec<T>, &P) -> T,
>(locate: &L, interpolate: &I, src: &Array3<T>, x: int, y: int, c: int, zero: T, v: T) -> bool {
    exists|x0: isize, y0: isize, at: P|
        #[trigger] call_ensures(*locate, (x as usize, y as usize), (x0, y0, at))
            && may_interpolate(
            interpolate,
            neighborhood(src, x0 as int, y0 as int, c, zero),
            at,
            v,
        )
}

/// Resamples `src` onto a canvas of `h2 × w2` pixels. For each output
/// pixel `locate` gives the top-left corner of its neighborhood in `src`
/// and the position inside it; `interpolate` turns the neighborhood of one
/// channel and that position into the output cell.
pub fn affine_trans<T: Copy, P, L: Fn(usize, usize) -> (isize, isize, P), I: Fn(&Vec<T>, &P) -> T>(
    src: &Array3<T>,
    h2: usize,
    w2: usize,
    zero: T,
    locate: &L,
    interpolate: &I,
) -> (dest: Array3<T>)
    requires
        src.wf(),
        src.channels() == 3,
        h2 * w2 * 3 <= usize::MAX,
        forall|x: usize, y: usize| call_requires(*locate, (x, y)),
        forall|taps: &Vec<T>, at: &P| call_requires(*interpolate, (taps, at)),
    ensures
        dest.wf(),
        dest.height() == h2,
        dest.width() == w2,
        dest.channels() == 3,
        forall|x: int, y: int, c: int|
            dest.contains(x, y, c) ==> may_sample(
                locate,
                interpolate,
                src,
                x,
                y,
                c,
                zero,
                #[trigger] dest.at(x, y, c),
            ),
{
    let cell = |x: usize, y: usize, c: usize| -> (v: T)
        requires
            c < 3,
        ensures
            may_sample(locate, interpolate, src, x as int, y as int, c as int, zero, v),
        {
            let (x0, y0, at) = locate(x, y);
            let taps = gather_neighborhood(src, x0, y0, c, zero);
            let v = interpolate(&taps, &at);
            proof {
                assert((x as int) as usize == x && (y as int) as usize == y);
            }
            v
        };
    let dest = Array3::from_shape_fn(h2, w2, 3, cell);
    proof {
        assert forall|x: int, y: int, c: int| dest.contains(x, y, c) implies may_sample(
            locate,
            interpolate,
            src,
            x,
            y,
            c,
            zero,
            #[trigger] dest.at(x, y, c),
        ) by {
            assert(call_ensures(cell, (x as usize, y as usize, c as usize), dest.at(x, y, c)));
        }
    }
    dest
}

/// The processor of the affine transform.
#[derive(Clone, Copy, Debug)]
pub struct AffineTransform;

impl AffineTransform {
    /// Hands the buffer of a normal image to `kernel` and wraps the image
    /// that it returns, or passes its failure on; a complex image is
    /// refused.
    pub fn run<T, C, K: FnOnce(Array3<T>) -> Result<Array3<T>, Error>>(
        &self,
        src: Image<T, C>,
        kernel: K,
    ) -> (out: Result<Image<T, C>, Error>)
        requires
            forall|a: Array3<T>| src == Image::<T, C>::Normal(a) ==> call_requires(kernel, (a,)),
        ensures
            match (src, out) {
                (Image::Normal(a), Ok(Image::Normal(d))) => call_ensures(
                    kernel,
                    (a,),
                    Ok::<Array3<T>, Error>(d),
                ),
                (Image::Normal(a), Err(e)) => call_ensures(kernel, (a,), Err::<Array3<T>, Error>(e)),
                (Image::Complex(_), Err(e)) => e == Error::WrongVariant {
                    expected: ImageKind::Normal,
                    found: ImageKind::Complex,
                },
                _ => false,
            },
    {
        match src {
            Image::Normal(mat) => match kernel(mat) {
                Ok(dest) => Ok(Image::Normal(dest)),
                Err(e) => Err(e),
            },
            Image::Complex(_) => Err(
                Error::WrongVariant { expected: ImageKind::Normal, found: ImageKind::Complex },
            ),
        }
    }
}

} // verus!
