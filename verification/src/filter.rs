//! Spatial filters over "valid" windows: the output has one pixel for each
//! position at which the window lies wholly inside the image.

use crate::array::{Array2, Array3};
use crate::error::{Error, ImageKind, ParameterFault};
use crate::image::Image;
use vstd::prelude::*;

verus! {

/// The `k × k` window of channel `c` whose top-left cell is `(x, y)`, row
/// by row.
pub open spec fn window<T>(src: &Array3<T>, x: int, y: int, c: int, k: nat) -> Seq<T> {
    Seq::new(k * k, |i: int| src.at(x + i / (k as int), y + i % (k as int), c))
}

/// Whether `f` may return `v` when handed a window and a kernel holding
/// these cells.
pub open spec fn may_weigh<T, F: Fn(&Vec<T>, &Vec<T>) -> T>(
    f: &F,
    window: Seq<T>,
    kernel: Seq<T>,
    v: T,
) -> bool {
    exists|a: Vec<T>, b: Vec<T>|
        a@ == window && b@ == kernel && #[trigger] call_ensures(*f, (&a, &b), v)
}

/// Copies the `k × k` window of channel `c` whose top-left cell is
/// `(x, y)`.
pub fn gather_window<T: Copy>(src: &Array3<T>, x: usize, y: usize, c: usize, k: usize) -> (r: Vec<
    T,
>)
    requires
        src.wf(),
        x + k <= src.height(),
        y + k <= src.width(),
        c < src.channels(),
    ensures
        r@ == window(src, x as int, y as int, c as int, k as nat),
{
    let (h, w, _) = src.dim();
    let mut r: Vec<T> = Vec::new();
    let mut i: usize = 0;
    proof {
        assert(0 * (k as int) == 0);
    }
    while i < k
        invariant
            src.wf(),
            h == src.height(),
            w == src.width(),
            x + k <= src.height(),
            y + k <= src.width(),
            c < src.channels(),
            i <= k,
            r@.len() == i * k,
            forall|n: int|
                0 <= n < r@.len() ==> r@[n] == src.at(
                    x + n / (k as int),
                    y + n % (k as int),
                    c as int,
                ),
        decreases k - i,
    {
        let mut j: usize = 0;
        while j < k
            invariant
                src.wf(),
                h == src.height(),
                w == src.width(),
                x + k <= src.height(),
                y + k <= src.width(),
                c < src.channels(),
                i < k,
                j <= k,
                r@.len() == i * k + j,
                forall|n: int|
                    0 <= n < r@.len() ==> r@[n] == src.at(
                        x + n / (k as int),
                        y + n % (k as int),
                        c as int,
                    ),
            decreases k - j,
        {
            let v = src.get(x + i, y + j, c);
            proof {
                lemma_div_mod_row(i as int, j as int, k as int);
            }
            r.push(v);
            j += 1;
        }
        proof {
            assert(i * k + k == (i + 1) * k) by (nonlinear_arith);
        }
        i += 1;
    }
    proof {
        assert(r@.len() == k * k);
        assert(r@ =~= window(src, x as int, y as int, c as int, k as nat));
    }
    r
}

/// Valid convolution of a three-channel image with a square kernel of odd
/// size: each output cell is what `dot` returns for the window under the
/// kernel and the kernel's cells, both row by row.
pub fn linear_filter<T: Copy, F: Fn(&Vec<T>, &Vec<T>) -> T>(
    src: &Array3<T>,
    kernel: &Array2<T>,
    dot: &F,
) -> (dest: Array3<T>)
    requires
        src.wf(),
        kernel.wf(),
        src.channels() == 3,
        kernel.height() == kernel.width(),
        kernel.height() % 2 == 1,
        kernel.height() <= src.height(),
        kernel.height() <= src.width(),
        forall|a: &Vec<T>, b: &Vec<T>|
            a@.len() == kernel.cells().len() && b@ == kernel.cells() ==> call_requires(
                *dot,
                (a, b),
            ),
    ensures
        valid_shape(src, kernel.height(), &dest),
        forall|x: int, y: int, c: int|
            dest.contains(x, y, c) ==> may_weigh(
                dot,
                window(src, x, y, c, kernel.height()),
                kernel.cells(),
                #[trigger] dest.at(x, y, c),
            ),
{
    let (h, w, _) = src.dim();
    let (k, _) = kernel.dim();
    let h2 = h - k + 1;
    let w2 = w - k + 1;
    let weights = kernel.as_raw();
    let len = src.as_raw().len();
    proof {
        assert(h2 * w2 * 3 <= h * w * 3) by (nonlinear_arith)
            requires
                0 <= h2 <= h,
                0 <= w2 <= w,
        ;
    }
    let cell = |x: usize, y: usize, c: usize| -> (v: T)
        requires
            x < h2,
            y < w2,
            c < 3,
        ensures
            may_weigh(dot, window(src, x as int, y as int, c as int, k as nat), weights@, v),
        {
            let taps = gather_window(src, x, y, c, k);
            dot(&taps, weights)
        };
    let dest = Array3::from_shape_fn(h2, w2, 3, cell);
    proof {
        assert forall|x: int, y: int, c: int| dest.contains(x, y, c) implies may_weigh(
            dot,
            window(src, x, y, c, kernel.height()),
            kernel.cells(),
            #[trigger] dest.at(x, y, c),
        ) by {
            assert(call_ensures(cell, (x as usize, y as usize, c as usize), dest.at(x, y, c)));
        }
    }
    dest
}

/// Whether `f` may return `v` when handed cells equal to `cells`.
pub open spec fn may_fold<A, R, F: Fn(&Vec<A>) -> R>(f: &F, cells: Seq<A>, v: R) -> bool {
    exists|a: Vec<A>| a@ == cells && #[trigger] call_ensures(*f, (&a,), v)
}

/// Whether `f` may return `v` when handed a window holding `window` and
/// the cell `center`.
pub open spec fn may_blend<T, F: Fn(&Vec<T>, T) -> T>(
    f: &F,
    window: Seq<T>,
    center: T,
    v: T,
) -> bool {
    exists|a: Vec<T>| a@ == window && #[trigger] call_ensures(*f, (&a, center), v)
}

/// Shape of the output of a filter with a `k × k` window: one pixel for
/// each position of the window inside the image.
pub open spec fn valid_shape<T, U>(src: &Array3<T>, k: nat, dest: &Array3<U>) -> bool {
    &&& dest.wf()
    &&& dest.height() == src.height() - k + 1
    &&& dest.width() == src.width() - k + 1
    &&& dest.channels() == 3
}

/// The kernel of the box filter: every cell holds what `weight` returns
/// for the number of cells.
pub fn box_filter_kernel<T: Copy, W: Fn(usize) -> T>(kernel_size: usize, weight: &W) -> (kernel:
    Array2<T>)
    requires
        kernel_size * kernel_size <= usize::MAX,
        call_requires(*weight, ((kernel_size * kernel_size) as usize,)),
    ensures
        kernel.wf(),
        kernel.height() == kernel_size,
        kernel.width() == kernel_size,
        exists|k: T|
            #[trigger] call_ensures(*weight, ((kernel_size * kernel_size) as usize,), k)
                && forall|i: int| 0 <= i < kernel.cells().len() ==> kernel.cells()[i] == k,
{
    // Normalize factor.
    let k = weight(kernel_size * kernel_size);
    Array2::from_elem(kernel_size, kernel_size, k)
}

/// Whether `kernel` may be the Gaussian kernel of this size: `raw` holds
/// what `bell` returns for each cell and the middle index, `sum` is what
/// `total` returns for the cells of `raw`, and each cell of `kernel` is
/// what `divide` returns for the cell of `raw` and `sum`.
pub open spec fn is_gauss_kernel<
    T,
    G: Fn(usize, usize, usize) -> T,
    A: Fn(&Vec<T>) -> T,
    D: Fn(T, T) -> T,
>(kernel_size: nat, bell: &G, total: &A, divide: &D, raw: &Array2<T>, sum: T, kernel: &Array2<
    T,
>) -> bool {
    &&& raw.wf()
    &&& raw.height() == kernel_size
    &&& raw.width() == kernel_size
    &&& kernel.wf()
    &&& kernel.height() == kernel_size
    &&& kernel.width() == kernel_size
    &&& forall|x: int, y: int|
        raw.contains(x, y) ==> call_ensures(
            *bell,
            (x as usize, y as usize, (kernel_size / 2) as usize),
            #[trigger] raw.at(x, y),
        )
    &&& may_fold(total, raw.cells(), sum)
    &&& forall|x: int, y: int|
        raw.contains(x, y) ==> call_ensures(*divide, (raw.at(x, y), sum), #[trigger] kernel.at(x, y))
}

/// The kernel of the Gaussian filter, normalized after the fact: `bell`
/// gives the weight of a cell from its position and the middle index,
/// `total` the sum of all weights, `divide` a weight over the sum.
pub fn gauss_filter_kernel<
    T: Copy,
    G: Fn(usize, usize, usize) -> T,
    A: Fn(&Vec<T>) -> T,
    D: Fn(T, T) -> T,
>(kernel_size: usize, bell: &G, total: &A, divide: &D) -> (kernel: Array2<T>)
    requires
        kernel_size * kernel_size <= usize::MAX,
        forall|x: usize, y: usize, mid: usize| call_requires(*bell, (x, y, mid)),
        forall|cells: &Vec<T>| call_requires(*total, (cells,)),
        forall|a: T, b: T| call_requires(*divide, (a, b)),
    ensures
        exists|raw: Array2<T>, sum: T| #[trigger]
            is_gauss_kernel(kernel_size as nat, bell, total, divide, &raw, sum, &kernel),
{
    let mid = kernel_size / 2;
    let weigh = |x: usize, y: usize| -> (v: T)
        ensures
            call_ensures(*bell, (x, y, mid), v),
        { bell(x, y, mid) };
    let raw = Array2::from_shape_fn(kernel_size, kernel_size, weigh);
    // Normalize.
    let sum = total(raw.as_raw());
    let part = |x: usize, y: usize| -> (v: T)
        requires
            x < kernel_size,
            y < kernel_size,
        ensures
            call_ensures(*divide, (raw.at(x as int, y as int), sum), v),
        { divide(raw.get(x, y), sum) };
    let kernel = Array2::from_shape_fn(kernel_size, kernel_size, part);
    proof {
        assert forall|x: int, y: int| raw.contains(x, y) implies call_ensures(
            *bell,
            (x as usize, y as usize, (kernel_size as nat / 2) as usize),
            #[trigger] raw.at(x, y),
        ) by {
            assert(call_ensures(weigh, (x as usize, y as usize), raw.at(x, y)));
        }
        assert forall|x: int, y: int| raw.contains(x, y) implies call_ensures(
            *divide,
            (raw.at(x, y), sum),
            #[trigger] kernel.at(x, y),
        ) by {
            assert(call_ensures(part, (x as usize, y as usize), kernel.at(x, y)));
        }
        assert(is_gauss_kernel(kernel_size as nat, bell, total, divide, &raw, sum, &kernel));
    }
    kernel
}

/// Whether `dest` may be the adaptive filter's output: `stats` holds what
/// `measure` returns for each window, `floor` is what `estimate` returns
/// for all of `stats`, and each output cell is what `shrink` returns for
/// the window's statistics, `floor` and the window's central cell.
pub open spec fn is_wiener<
    T,
    St,
    N,
    M: Fn(&Vec<T>) -> St,
    E: Fn(&Vec<St>) -> N,
    K: Fn(St, &N, T) -> T,
>(
    src: &Array3<T>,
    neighbor: nat,
    measure: &M,
    estimate: &E,
    shrink: &K,
    stats: &Array3<St>,
    floor: N,
    dest: &Array3<T>,
) -> bool {
    &&& valid_shape(src, neighbor, stats)
    &&& valid_shape(src, neighbor, dest)
    &&& forall|x: int, y: int, c: int|
        stats.contains(x, y, c) ==> may_fold(
            measure,
            window(src, x, y, c, neighbor),
            #[trigger] stats.at(x, y, c),
        )
    &&& may_fold(estimate, stats.cells(), floor)
    &&& forall|x: int, y: int, c: int|
        dest.contains(x, y, c) ==> call_ensures(
            *shrink,
            (stats.at(x, y, c), &floor, src.at(x + neighbor / 2, y + neighbor / 2, c)),
            #[trigger] dest.at(x, y, c),
        )
}

/// The adaptive filter: local statistics per window, one estimate of the
/// noise over all windows, and each output cell shrunk from the window's
/// central cell by what the two say.
pub fn wiener_filter<
    T: Copy,
    St: Copy,
    N,
    M: Fn(&Vec<T>) -> St,
    E: Fn(&Vec<St>) -> N,
    K: Fn(St, &N, T) -> T,
>(src: &Array3<T>, neighbor: usize, measure: &M, estimate: &E, shrink: &K) -> (dest: Array3<T>)
    requires
        src.wf(),
        src.channels() == 3,
        1 <= neighbor <= src.height(),
        neighbor <= src.width(),
        forall|cells: &Vec<T>| call_requires(*measure, (cells,)),
        forall|cells: &Vec<St>| call_requires(*estimate, (cells,)),
        forall|s: St, n: &N, v: T| call_requires(*shrink, (s, n, v)),
    ensures
        exists|stats: Array3<St>, floor: N| #[trigger]
            is_wiener(src, neighbor as nat, measure, estimate, shrink, &stats, floor, &dest),
{
    let (h, w, _) = src.dim();
    let h2 = h - neighbor + 1;
    let w2 = w - neighbor + 1;
    let mid = neighbor / 2;
    let len = src.as_raw().len();
    proof {
        assert(h2 * w2 * 3 <= h * w * 3) by (nonlinear_arith)
            requires
                0 <= h2 <= h,
                0 <= w2 <= w,
        ;
    }
    let local = |x: usize, y: usize, c: usize| -> (v: St)
        requires
            x < h2,
            y < w2,
            c < 3,
        ensures
            may_fold(measure, window(src, x as int, y as int, c as int, neighbor as nat), v),
        {
            let taps = gather_window(src, x, y, c, neighbor);
            measure(&taps)
        };
    let stats = Array3::from_shape_fn(h2, w2, 3, local);
    let floor = estimate(stats.as_raw());
    let cell = |x: usize, y: usize, c: usize| -> (v: T)
        requires
            x < h2,
            y < w2,
            c < 3,
        ensures
            call_ensures(
                *shrink,
                (
                    stats.at(x as int, y as int, c as int),
                    &floor,
                    src.at(x + mid, y + mid, c as int),
                ),
                v,
            ),
        { shrink(stats.get(x, y, c), &floor, src.get(x + mid, y + mid, c)) };
    let dest = Array3::from_shape_fn(h2, w2, 3, cell);
    proof {
        assert forall|x: int, y: int, c: int| stats.contains(x, y, c) implies may_fold(
            measure,
            window(src, x, y, c, neighbor as nat),
            #[trigger] stats.at(x, y, c),
        ) by {
            assert(call_ensures(local, (x as usize, y as usize, c as usize), stats.at(x, y, c)));
        }
        assert forall|x: int, y: int, c: int| dest.contains(x, y, c) implies call_ensures(
            *shrink,
            (stats.at(x, y, c), &floor, src.at(x + neighbor as nat / 2, y + neighbor as nat / 2, c)),
            #[trigger] dest.at(x, y, c),
        ) by {
            assert(call_ensures(cell, (x as usize, y as usize, c as usize), dest.at(x, y, c)));
        }
        assert(is_wiener(src, neighbor as nat, measure, estimate, shrink, &stats, floor, &dest));
    }
    dest
}

/// The squared distance of cell `n` of a `k × k` window, read row by row,
/// from the window's central cell.
pub open spec fn spatial_distance(k: nat, n: int) -> int {
    let mid = (k / 2) as int;
    (n / (k as int) - mid) * (n / (k as int) - mid) + (n % (k as int) - mid) * (n % (k as int)
        - mid)
}

/// The squared distances of the cells of a `k × k` window from its
/// central cell, row by row.
pub fn spatial_distances(k: usize) -> (r: Vec<usize>)
    requires
        k * k <= usize::MAX,
    ensures
        r@.len() == k * k,
        forall|n: int| 0 <= n < r@.len() ==> (#[trigger] r@[n]) as int == spatial_distance(k as nat, n),
{
    let mid = k / 2;
    let mut r: Vec<usize> = Vec::new();
    let mut i: usize = 0;
    proof {
        assert(0 * (k as int) == 0);
    }
    while i < k
        invariant
            i <= k,
            mid == k / 2,
            k * k <= usize::MAX,
            r@.len() == i * k,
            forall|n: int|
                0 <= n < r@.len() ==> (#[trigger] r@[n]) as int == spatial_distance(k as nat, n),
        decreases k - i,
    {
        let di = if i >= mid {
            i - mid
        } else {
            mid - i
        };
        let mut j: usize = 0;
        while j < k
            invariant
                i < k,
                j <= k,
                mid == k / 2,
                k * k <= usize::MAX,
                di == if i >= mid {
                    i - mid
                } else {
                    mid - i
                },
                r@.len() == i * k + j,
                forall|n: int|
                    0 <= n < r@.len() ==> (#[trigger] r@[n]) as int == spatial_distance(
                        k as nat,
                        n,
                    ),
            decreases k - j,
        {
            let dj = if j >= mid {
                j - mid
            } else {
                mid - j
            };
            proof {
                lemma_div_mod_row(i as int, j as int, k as int);
                let a = di as int;
                let b = dj as int;
                let m = mid as int;
                assert(a <= m && b <= m);
                assert(2 * m <= k);
                assert(a * a + b * b <= k * k) by (nonlinear_arith)
                    requires
                        0 <= a <= m,
                        0 <= b <= m,
                        2 * m <= k,
                ;
                assert(0 <= a * a <= a * a + b * b && 0 <= b * b) by (nonlinear_arith);
                assert((i - m) * (i - m) == a * a) by (nonlinear_arith)
                    requires
                        a == i - m || a == m - i,
                ;
                assert((j - m) * (j - m) == b * b) by (nonlinear_arith)
                    requires
                        b == j - m || b == m - j,
                ;
            }
            r.push(di * di + dj * dj);
            j += 1;
        }
        proof {
            assert(i * k + k == (i + 1) * k) by (nonlinear_arith);
        }
        i += 1;
    }
    r
}

/// The edge-preserving filter: each output cell is what `blend` returns
/// for the window and the window's central cell.
pub fn bilateral_filter<T: Copy, F: Fn(&Vec<T>, T) -> T>(
    src: &Array3<T>,
    neighbor: usize,
    blend: &F,
) -> (dest: Array3<T>)
    requires
        src.wf(),
        src.channels() == 3,
        1 <= neighbor <= src.height(),
        neighbor <= src.width(),
        forall|cells: &Vec<T>, center: T| call_requires(*blend, (cells, center)),
    ensures
        valid_shape(src, neighbor as nat, &dest),
        forall|x: int, y: int, c: int|
            dest.contains(x, y, c) ==> may_blend(
                blend,
                window(src, x, y, c, neighbor as nat),
                src.at(x + neighbor / 2, y + neighbor / 2, c),
                #[trigger] dest.at(x, y, c),
            ),
{
    let (h, w, _) = src.dim();
    let h2 = h - neighbor + 1;
    let w2 = w - neighbor + 1;
    let mid = neighbor / 2;
    let len = src.as_raw().len();
    proof {
        assert(h2 * w2 * 3 <= h * w * 3) by (nonlinear_arith)
            requires
                0 <= h2 <= h,
                0 <= w2 <= w,
        ;
    }
    let cell = |x: usize, y: usize, c: usize| -> (v: T)
        requires
            x < h2,
            y < w2,
            c < 3,
        ensures
            may_blend(
                blend,
                window(src, x as int, y as int, c as int, neighbor as nat),
                src.at(x + mid, y + mid, c as int),
                v,
            ),
        {
            let taps = gather_window(src, x, y, c, neighbor);
            blend(&taps, src.get(x + mid, y + mid, c))
        };
    let dest = Array3::from_shape_fn(h2, w2, 3, cell);
    proof {
        assert forall|x: int, y: int, c: int| dest.contains(x, y, c) implies may_blend(
            blend,
            window(src, x, y, c, neighbor as nat),
            src.at(x + neighbor as nat / 2, y + neighbor as nat / 2, c),
            #[trigger] dest.at(x, y, c),
        ) by {
            assert(call_ensures(cell, (x as usize, y as usize, c as usize), dest.at(x, y, c)));
        }
    }
    dest
}

/// Splitting `i * k + j` by `k` gives back `i` and `j`.
pub proof fn lemma_div_mod_row(i: int, j: int, k: int)
    requires
        0 <= i,
        0 <= j < k,
    ensures
        (i * k + j) / k == i,
        (i * k + j) % k == j,
{
    vstd::arithmetic::div_mod::lemma_fundamental_div_mod_converse(i * k + j, k, i, j);
}

/// The filters on offer.
#[derive(Clone, Copy, Debug, PartialEq, Eq, Structural)]
pub enum FilterType {
    Box,
    Gaussian,
    /// The Gaussian filter on the accelerated path.
    GaussianCL,
    Wiener,
    Bilateral,
}

/// The processor of the spatial filters.
#[derive(Clone, Copy, Debug)]
pub struct Filter;

impl Filter {
    /// What [`Filter::run`] finds wrong with its input, if anything: a
    /// complex image, then an even window, then a window that does not fit
    /// the image.
    pub open spec fn fault<T, C>(neighbor: nat, src: &Image<T, C>) -> Option<Error> {
        match src {
            Image::Complex(_) => Some(
                Error::WrongVariant { expected: ImageKind::Normal, found: ImageKind::Complex },
            ),
            Image::Normal(a) => if neighbor % 2 != 1 {
                Some(Error::InvalidParameter(ParameterFault::EvenKernel))
            } else if !(neighbor <= a.height() && neighbor <= a.width()) {
                Some(Error::InvalidParameter(ParameterFault::KernelTooLarge))
            } else {
                None
            },
        }
    }

    /// Checks the window against the image and, where both are in order,
    /// hands the image's buffer to `kernel` and wraps the image that it
    /// returns, or passes its failure on.
    pub fn run<T, C, K: FnOnce(Array3<T>) -> Result<Array3<T>, Error>>(
        &self,
        neighbor: usize,
        src: Image<T, C>,
        kernel: K,
    ) -> (out: Result<Image<T, C>, Error>)
        requires
            forall|a: Array3<T>|
                src == Image::<T, C>::Normal(a) && Self::fault(neighbor as nat, &src).is_none()
                    ==> call_requires(kernel, (a,)),
        ensures
            match Self::fault(neighbor as nat, &src) {
                Some(e) => out == Err::<Image<T, C>, Error>(e),
                None => match (src, out) {
                    (Image::Normal(a), Ok(Image::Normal(d))) => call_ensures(
                        kernel,
                        (a,),
                        Ok::<Array3<T>, Error>(d),
                    ),
                    (Image::Normal(a), Err(e)) => call_ensures(
                        kernel,
                        (a,),
                        Err::<Array3<T>, Error>(e),
                    ),
                    _ => false,
                },
            },
    {
        let mat = match src {
            Image::Normal(mat) => mat,
            Image::Complex(_) => {
                return Err(
                    Error::WrongVariant { expected: ImageKind::Normal, found: ImageKind::Complex },
                );
            },
        };
        let (h, w, _) = mat.dim();
        if neighbor % 2 != 1 {
            return Err(Error::InvalidParameter(ParameterFault::EvenKernel));
        }
        if !(neighbor <= h && neighbor <= w) {
            return Err(Error::InvalidParameter(ParameterFault::KernelTooLarge));
        }
        match kernel(mat) {
            Ok(dest) => Ok(Image::Normal(dest)),
            Err(e) => Err(e),
        }
    }
}

} // verus!
