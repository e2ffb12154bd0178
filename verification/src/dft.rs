//! The two-dimensional transform of a plane: one-dimensional transforms
//! along the rows and along the columns of the plane, padded with zeros to
//! powers of two.

use crate::array::{Array2, Array3};
use crate::bitrev::{fft_log, fft_size, lemma_fft_size};
use crate::error::{Error, ImageKind};
use crate::fft::{transformed, FFT};
use crate::image::Image;
use vstd::prelude::*;

verus! {

/// Whether `dest` is `src` with rows and columns added up to the next
/// powers of two, the new cells holding `zero`.
pub open spec fn padded<T>(src: &Array2<T>, dest: &Array2<T>, zero: T) -> bool {
    &&& dest.wf()
    &&& dest.height() == fft_size(src.height())
    &&& dest.width() == fft_size(src.width())
    &&& forall|x: int, y: int|
        dest.contains(x, y) ==> #[trigger] dest.at(x, y) == (if src.contains(x, y) {
            src.at(x, y)
        } else {
            zero
        })
}

/// Whether `after` may be `before` with every row transformed.
pub open spec fn rows_pass<T, B: Fn(T, T, usize, usize, bool) -> (T, T), S: Fn(T, usize) -> T>(
    op: &B,
    scale: &S,
    inverse: bool,
    before: &Array2<T>,
    after: &Array2<T>,
) -> bool {
    &&& after.wf()
    &&& after.height() == before.height()
    &&& after.width() == before.width()
    &&& forall|x: int|
        0 <= x < before.height() ==> transformed(
            fft_log(before.width()),
            op,
            scale,
            inverse,
            before.row_spec(x),
            #[trigger] after.row_spec(x),
        )
}

/// Whether `after` may be `before` with every column transformed.
pub open spec fn cols_pass<T, B: Fn(T, T, usize, usize, bool) -> (T, T), S: Fn(T, usize) -> T>(
    op: &B,
    scale: &S,
    inverse: bool,
    before: &Array2<T>,
    after: &Array2<T>,
) -> bool {
    &&& after.wf()
    &&& after.height() == before.height()
    &&& after.width() == before.width()
    &&& forall|y: int|
        0 <= y < before.width() ==> transformed(
            fft_log(before.height()),
            op,
            scale,
            inverse,
            before.col_spec(y),
            #[trigger] after.col_spec(y),
        )
}

/// Whether `dest` may be the two-dimensional transform of `src`: the
/// padded plane is transformed along its rows and then along its columns,
/// or, when `inverse` is set, along its columns and then along its rows.
pub open spec fn transformed_2d<
    T,
    B: Fn(T, T, usize, usize, bool) -> (T, T),
    S: Fn(T, usize) -> T,
>(op: &B, scale: &S, inverse: bool, zero: T, src: &Array2<T>, dest: &Array2<T>) -> bool {
    if inverse {
        exists|start: Array2<T>, mid: Array2<T>|
            {
                &&& padded(src, &start, zero)
                &&& #[trigger] cols_pass(op, scale, inverse, &start, &mid)
                &&& rows_pass(op, scale, inverse, &mid, dest)
            }
    } else {
        exists|start: Array2<T>, mid: Array2<T>|
            {
                &&& padded(src, &start, zero)
                &&& #[trigger] rows_pass(op, scale, inverse, &start, &mid)
                &&& cols_pass(op, scale, inverse, &mid, dest)
            }
    }
}

/// Transforms every row of `mat` in place.
pub fn transform_rows<T: Copy, B: Fn(T, T, usize, usize, bool) -> (T, T), S: Fn(T, usize) -> T>(
    mat: &mut Array2<T>,
    plan: &FFT,
    inverse: bool,
    op: &B,
    scale: &S,
)
    requires
        old(mat).wf(),
        plan.wf(),
        plan.size() == old(mat).width(),
        forall|u: T, v: T, k: usize, n: usize|
            2 * k < n ==> #[trigger] call_requires(*op, (u, v, k, n, inverse)),
        forall|u: T, n: usize| #[trigger] call_requires(*scale, (u, n)),
    ensures
        rows_pass(op, scale, inverse, old(mat), final(mat)),
{
    let ghost before = *mat;
    let (h, w) = mat.dim();
    proof {
        plan.lemma_log_size();
    }
    let mut x: usize = 0;
    while x < h
        invariant
            x <= h,
            mat.wf(),
            before.wf(),
            plan.wf(),
            h == before.height(),
            w == before.width(),
            mat.height() == h,
            mat.width() == w,
            plan.size() == w,
            plan.log_size() == fft_log(w as nat),
            forall|u: T, v: T, k: usize, n: usize|
                2 * k < n ==> #[trigger] call_requires(*op, (u, v, k, n, inverse)),
            forall|u: T, n: usize| #[trigger] call_requires(*scale, (u, n)),
            forall|r: int|
                0 <= r < x ==> transformed(
                    fft_log(w as nat),
                    op,
                    scale,
                    inverse,
                    before.row_spec(r),
                    #[trigger] mat.row_spec(r),
                ),
            forall|x1: int, y1: int|
                x <= x1 < h && 0 <= y1 < w ==> mat.at(x1, y1) == before.at(x1, y1),
        decreases h - x,
    {
        let ghost prev = *mat;
        let mut row = mat.row(x);
        proof {
            assert(row@ =~= before.row_spec(x as int));
        }
        plan.fft(&mut row, inverse, op, scale);
        mat.set_row(x, &row);
        proof {
            assert forall|r: int| 0 <= r < x + 1 implies transformed(
                fft_log(w as nat),
                op,
                scale,
                inverse,
                before.row_spec(r),
                #[trigger] mat.row_spec(r),
            ) by {
                if r < x {
                    assert(mat.row_spec(r) =~= prev.row_spec(r));
                }
            }
        }
        x += 1;
    }
}

/// Transforms every column of `mat` in place.
pub fn transform_cols<T: Copy, B: Fn(T, T, usize, usize, bool) -> (T, T), S: Fn(T, usize) -> T>(
    mat: &mut Array2<T>,
    plan: &FFT,
    inverse: bool,
    op: &B,
    scale: &S,
)
    requires
        old(mat).wf(),
        plan.wf(),
        plan.size() == old(mat).height(),
        forall|u: T, v: T, k: usize, n: usize|
            2 * k < n ==> #[trigger] call_requires(*op, (u, v, k, n, inverse)),
        forall|u: T, n: usize| #[trigger] call_requires(*scale, (u, n)),
    ensures
        cols_pass(op, scale, inverse, old(mat), final(mat)),
{
    let ghost before = *mat;
    let (h, w) = mat.dim();
    proof {
        plan.lemma_log_size();
    }
    let mut y: usize = 0;
    while y < w
        invariant
            y <= w,
            mat.wf(),
            before.wf(),
            plan.wf(),
            h == before.height(),
            w == before.width(),
            mat.height() == h,
            mat.width() == w,
            plan.size() == h,
            plan.log_size() == fft_log(h as nat),
            forall|u: T, v: T, k: usize, n: usize|
                2 * k < n ==> #[trigger] call_requires(*op, (u, v, k, n, inverse)),
            forall|u: T, n: usize| #[trigger] call_requires(*scale, (u, n)),
            forall|c: int|
                0 <= c < y ==> transformed(
                    fft_log(h as nat),
                    op,
                    scale,
                    inverse,
                    before.col_spec(c),
                    #[trigger] mat.col_spec(c),
                ),
            forall|x1: int, y1: int|
                0 <= x1 < h && y <= y1 < w ==> mat.at(x1, y1) == before.at(x1, y1),
        decreases w - y,
    {
        let ghost prev = *mat;
        let mut col = mat.col(y);
        proof {
            assert(col@ =~= before.col_spec(y as int));
        }
        plan.fft(&mut col, inverse, op, scale);
        mat.set_col(y, &col);
        proof {
            assert forall|c: int| 0 <= c < y + 1 implies transformed(
                fft_log(h as nat),
                op,
                scale,
                inverse,
                before.col_spec(c),
                #[trigger] mat.col_spec(c),
            ) by {
                if c < y {
                    assert(mat.col_spec(c) =~= prev.col_spec(c));
                }
            }
        }
        y += 1;
    }
}

/// The two-dimensional transform of a plane. The plane is padded with
/// `zero` to power-of-two sides. Forward, every row is transformed and
/// then every column; inverse, every column and then every row.
pub fn fft_2d<T: Copy, B: Fn(T, T, usize, usize, bool) -> (T, T), S: Fn(T, usize) -> T>(
    src: Array2<T>,
    inverse: bool,
    zero: T,
    op: &B,
    scale: &S,
) -> (dest: Array2<T>)
    requires
        src.wf(),
        fft_size(src.height()) * fft_size(src.width()) <= usize::MAX,
        forall|u: T, v: T, k: usize, n: usize|
            2 * k < n ==> #[trigger] call_requires(*op, (u, v, k, n, inverse)),
        forall|u: T, n: usize| #[trigger] call_requires(*scale, (u, n)),
    ensures
        dest.wf(),
        dest.height() == fft_size(src.height()),
        dest.width() == fft_size(src.width()),
        transformed_2d(op, scale, inverse, zero, &src, &dest),
{
    // Expand to the transform's size.
    let (n0, m0) = src.dim();
    proof {
        lemma_fft_size(n0 as nat);
        lemma_fft_size(m0 as nat);
        let a = fft_size(n0 as nat);
        let b = fft_size(m0 as nat);
        assert(a <= a * b && b <= a * b) by (nonlinear_arith)
            requires
                a >= 1,
                b >= 1,
        ;
    }
    let n = FFT::fft_size_of(n0);
    let m = FFT::fft_size_of(m0);
    let pad = |x: usize, y: usize| -> (v: T)
        requires
            x < n,
            y < m,
        ensures
            v == (if x < n0 && y < m0 {
                src.at(x as int, y as int)
            } else {
                zero
            }),
        {
            if x < n0 && y < m0 {
                src.get(x, y)
            } else {
                zero
            }
        };
    let mut mat = Array2::from_shape_fn(n, m, pad);
    let ghost start = mat;
    proof {
        assert forall|x: int, y: int| start.contains(x, y) implies #[trigger] start.at(x, y) == (
        if src.contains(x, y) {
            src.at(x, y)
        } else {
            zero
        }) by {
            assert(call_ensures(pad, (x as usize, y as usize), start.at(x, y)));
        }
        assert(padded(&src, &start, zero));
    }
    let f1 = FFT::init(n);
    let f2 = FFT::init(m);
    if !inverse {
        transform_rows(&mut mat, &f2, inverse, op, scale);
        let ghost mid = mat;
        transform_cols(&mut mat, &f1, inverse, op, scale);
        proof {
            assert(rows_pass(op, scale, inverse, &start, &mid));
            assert(cols_pass(op, scale, inverse, &mid, &mat));
        }
    } else {
        transform_cols(&mut mat, &f1, inverse, op, scale);
        let ghost mid = mat;
        transform_rows(&mut mat, &f2, inverse, op, scale);
        proof {
            assert(cols_pass(op, scale, inverse, &start, &mid));
            assert(rows_pass(op, scale, inverse, &mid, &mat));
        }
    }
    mat
}

/// Whether `plane` may be the luminance plane of `rgb`, centred for the
/// transform: each cell is what `luma` returns for the pixel's red, green
/// and blue samples, told to flip the sign where row plus column is odd.
pub open spec fn is_luminance<T, C, L: Fn(T, T, T, bool) -> C>(
    luma: &L,
    rgb: &Array3<T>,
    plane: &Array2<C>,
) -> bool {
    &&& plane.wf()
    &&& plane.height() == rgb.height()
    &&& plane.width() == rgb.width()
    &&& forall|x: int, y: int|
        plane.contains(x, y) ==> call_ensures(
            *luma,
            (rgb.at(x, y, 0), rgb.at(x, y, 1), rgb.at(x, y, 2), (x + y) % 2 == 1),
            #[trigger] plane.at(x, y),
        )
}

/// Whether `gray` may be the grayscale projection of `plane`: `magnitude`
/// turns each cell into one sample that fills the pixel's three channels.
pub open spec fn is_magnitude<T, C, M: Fn(C) -> T>(
    magnitude: &M,
    plane: &Array2<C>,
    gray: &Array3<T>,
) -> bool {
    &&& gray.wf()
    &&& gray.height() == plane.height()
    &&& gray.width() == plane.width()
    &&& gray.channels() == 3
    &&& forall|x: int, y: int|
        plane.contains(x, y) ==> {
            &&& call_ensures(*magnitude, (plane.at(x, y),), #[trigger] gray.at(x, y, 0))
            &&& gray.at(x, y, 1) == gray.at(x, y, 0)
            &&& gray.at(x, y, 2) == gray.at(x, y, 0)
        }
}

/// The processor of the forward and inverse transforms.
#[derive(Clone, Copy, Debug)]
pub struct DFT;

impl DFT {
    /// The sides of the padded plane can be multiplied, three samples per
    /// cell, in a machine word.
    pub open spec fn fits<T, C>(src: &Image<T, C>) -> bool {
        fft_size(src.extent().0) * fft_size(src.extent().1) * 3 <= usize::MAX
    }

    /// Whether `out` may be what [`DFT::run`] returns for `src`.
    pub open spec fn ran<
        T,
        C,
        L: Fn(T, T, T, bool) -> C,
        M: Fn(C) -> T,
        B: Fn(C, C, usize, usize, bool) -> (C, C),
        S: Fn(C, usize) -> C,
    >(
        inverse: bool,
        src: &Image<T, C>,
        zero: C,
        luma: &L,
        magnitude: &M,
        op: &B,
        scale: &S,
        out: &Result<Image<T, C>, Error>,
    ) -> bool {
        match (inverse, src) {
            (false, Image::Normal(rgb)) => match out {
                Ok(Image::Complex(spectrum)) => exists|plane: Array2<C>|
                    #[trigger] is_luminance(luma, rgb, &plane) && transformed_2d(
                        op,
                        scale,
                        false,
                        zero,
                        &plane,
                        spectrum,
                    ),
                _ => false,
            },
            (false, Image::Complex(_)) => *out == Err::<Image<T, C>, Error>(
                Error::WrongVariant { expected: ImageKind::Normal, found: ImageKind::Complex },
            ),
            (true, Image::Complex(spectrum)) => match out {
                Ok(Image::Normal(gray)) => exists|plane: Array2<C>|
                    #[trigger] transformed_2d(op, scale, true, zero, spectrum, &plane)
                        && is_magnitude(magnitude, &plane, gray),
                _ => false,
            },
            (true, Image::Normal(_)) => *out == Err::<Image<T, C>, Error>(
                Error::WrongVariant { expected: ImageKind::Complex, found: ImageKind::Normal },
            ),
        }
    }

    /// Forward: the luminance plane of a normal image, centred, is
    /// transformed into a complex image. Inverse: a complex image is
    /// transformed back and projected to a gray normal image.
    pub fn run<
        T: Copy,
        C: Copy,
        L: Fn(T, T, T, bool) -> C,
        M: Fn(C) -> T,
        B: Fn(C, C, usize, usize, bool) -> (C, C),
        S: Fn(C, usize) -> C,
    >(
        &self,
        inverse: bool,
        src: Image<T, C>,
        zero: C,
        luma: &L,
        magnitude: &M,
        op: &B,
        scale: &S,
    ) -> (out: Result<Image<T, C>, Error>)
        requires
            src.wf(),
            Self::fits(&src),
            forall|r: T, g: T, b: T, flip: bool| call_requires(*luma, (r, g, b, flip)),
            forall|v: C| call_requires(*magnitude, (v,)),
            forall|u: C, v: C, k: usize, n: usize|
                2 * k < n ==> #[trigger] call_requires(*op, (u, v, k, n, inverse)),
            forall|u: C, n: usize| #[trigger] call_requires(*scale, (u, n)),
        ensures
            Self::ran(inverse, &src, zero, luma, magnitude, op, scale, &out),
            out.is_ok() ==> out.unwrap().wf(),
    {
        proof {
            lemma_fft_size(src.extent().0);
            lemma_fft_size(src.extent().1);
            let a = fft_size(src.extent().0);
            let b = fft_size(src.extent().1);
            assert(a * b <= a * b * 3) by (nonlinear_arith)
                requires
                    a >= 1,
                    b >= 1,
            ;
        }
        if !inverse {
            let rgb = match src {
                Image::Normal(rgb) => rgb,
                Image::Complex(_) => {
                    return Err(
                        Error::WrongVariant {
                            expected: ImageKind::Normal,
                            found: ImageKind::Complex,
                        },
                    );
                },
            };
            // Convert to a complex grayscale plane, shifted to centre the spectrum.
            let (h, w, _) = rgb.dim();
            let len = rgb.as_raw().len();
            proof {
                assert(h * w <= h * w * 3) by (nonlinear_arith);
            }
            let cell = |x: usize, y: usize| -> (v: C)
                requires
                    x < h,
                    y < w,
                ensures
                    call_ensures(
                        *luma,
                        (
                            rgb.at(x as int, y as int, 0),
                            rgb.at(x as int, y as int, 1),
                            rgb.at(x as int, y as int, 2),
                            (x + y) % 2 == 1,
                        ),
                        v,
                    ),
                {
                    let flip = (x % 2) != (y % 2);
                    luma(rgb.get(x, y, 0), rgb.get(x, y, 1), rgb.get(x, y, 2), flip)
                };
            let plane = Array2::from_shape_fn(h, w, cell);
            let ghost witness = plane;
            proof {
                assert forall|x: int, y: int| plane.contains(x, y) implies call_ensures(
                    *luma,
                    (rgb.at(x, y, 0), rgb.at(x, y, 1), rgb.at(x, y, 2), (x + y) % 2 == 1),
                    #[trigger] plane.at(x, y),
                ) by {
                    assert(call_ensures(cell, (x as usize, y as usize), plane.at(x, y)));
                }
                assert(is_luminance(luma, &rgb, &witness));
            }
            let spectrum = fft_2d(plane, false, zero, op, scale);
            Ok(Image::Complex(spectrum))
        } else {
            let spectrum = match src {
                Image::Complex(spectrum) => spectrum,
                Image::Normal(_) => {
                    return Err(
                        Error::WrongVariant {
                            expected: ImageKind::Complex,
                            found: ImageKind::Normal,
                        },
                    );
                },
            };
            let ghost given = spectrum;
            let plane = fft_2d(spectrum, true, zero, op, scale);
            let (h, w) = plane.dim();
            let level = |x: usize, y: usize| -> (v: T)
                requires
                    x < h,
                    y < w,
                ensures
                    call_ensures(*magnitude, (plane.at(x as int, y as int),), v),
                { magnitude(plane.get(x, y)) };
            let grays = Array2::from_shape_fn(h, w, level);
            let cell = |x: usize, y: usize, c: usize| -> (v: T)
                requires
                    x < h,
                    y < w,
                ensures
                    v == grays.at(x as int, y as int),
                { grays.get(x, y) };
            let gray = Array3::from_shape_fn(h, w, 3, cell);
            proof {
                assert forall|x: int, y: int| plane.contains(x, y) implies {
                    &&& call_ensures(*magnitude, (plane.at(x, y),), #[trigger] gray.at(x, y, 0))
                    &&& gray.at(x, y, 1) == gray.at(x, y, 0)
                    &&& gray.at(x, y, 2) == gray.at(x, y, 0)
                } by {
                    assert(call_ensures(level, (x as usize, y as usize), grays.at(x, y)));
                    assert(call_ensures(cell, (x as usize, y as usize, 0usize), gray.at(x, y, 0)));
                    assert(call_ensures(cell, (x as usize, y as usize, 1usize), gray.at(x, y, 1)));
                    assert(call_ensures(cell, (x as usize, y as usize, 2usize), gray.at(x, y, 2)));
                }
                assert(transformed_2d(op, scale, true, zero, &given, &plane));
                assert(is_magnitude(magnitude, &plane, &gray));
            }
            Ok(Image::Normal(gray))
        }
    }
}

} // verus!
