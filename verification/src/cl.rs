//! The accelerated path: images travel to the device with four channels
//! per pixel and come back the same way.

use crate::affine_transform::may_sample;
use crate::array::{lemma_offset3_fits, offset3, Array2, Array3};
use crate::error::Error;
use crate::filter::{may_weigh, valid_shape, window};
use vstd::prelude::*;

verus! {

/// Whether `buf` holds the pixels of `src` with a fourth channel of
/// `alpha` added to each.
pub open spec fn is_rgba<T>(src: &Array3<T>, alpha: T, buf: Seq<T>) -> bool {
    &&& buf.len() == src.height() * src.width() * 4
    &&& forall|x: int, y: int, c: int|
        0 <= x < src.height() && 0 <= y < src.width() && 0 <= c < 4 ==> #[trigger] buf[offset3(
            src.width(),
            4,
            x,
            y,
            c,
        )] == (if c < 3 {
            src.at(x, y, c)
        } else {
            alpha
        })
}

/// Whether `dest` holds the first three channels of the `h × w` pixels of
/// four channels in `buf`.
pub open spec fn is_rgb_of<T>(buf: Seq<T>, h: nat, w: nat, dest: &Array3<T>) -> bool {
    &&& dest.wf()
    &&& dest.height() == h
    &&& dest.width() == w
    &&& dest.channels() == 3
    &&& forall|x: int, y: int, c: int|
        dest.contains(x, y, c) ==> #[trigger] dest.at(x, y, c) == buf[offset3(w, 4, x, y, c)]
}

/// Expands a three-channel image to four channels per pixel, the fourth
/// holding `alpha`, as one row-major buffer.
pub fn expand_rgba<T: Copy>(src: &Array3<T>, alpha: T) -> (buf: Vec<T>)
    requires
        src.wf(),
        src.channels() == 3,
        src.height() * src.width() * 4 <= usize::MAX,
    ensures
        is_rgba(src, alpha, buf@),
{
    let (h, w, _) = src.dim();
    let cell = |x: usize, y: usize, c: usize| -> (v: T)
        requires
            x < h,
            y < w,
            c < 4,
        ensures
            v == (if c < 3 {
                src.at(x as int, y as int, c as int)
            } else {
                alpha
            }),
        {
            if c != 3 {
                src.get(x, y, c)
            } else {
                // Alpha
                alpha
            }
        };
    let rgba = Array3::from_shape_fn(h, w, 4, cell);
    proof {
        assert forall|x: int, y: int, c: int|
            0 <= x < src.height() && 0 <= y < src.width() && 0 <= c < 4 implies #[trigger] rgba.cells()[offset3(
            src.width(),
            4,
            x,
            y,
            c,
        )] == (if c < 3 {
            src.at(x, y, c)
        } else {
            alpha
        }) by {
            assert(call_ensures(cell, (x as usize, y as usize, c as usize), rgba.at(x, y, c)));
        }
    }
    rgba.into_raw_vec()
}

/// Drops the fourth channel of an `h × w` buffer of four channels per
/// pixel.
pub fn drop_alpha<T: Copy>(buf: &Vec<T>, h: usize, w: usize) -> (dest: Array3<T>)
    requires
        buf@.len() == h * w * 4,
    ensures
        is_rgb_of(buf@, h as nat, w as nat, &dest),
{
    let len = buf.len();
    proof {
        assert(h * w * 3 <= h * w * 4) by (nonlinear_arith);
    }
    let cell = |x: usize, y: usize, c: usize| -> (v: T)
        requires
            x < h,
            y < w,
            c < 3,
        ensures
            v == buf@[offset3(w as nat, 4, x as int, y as int, c as int)],
        {
            proof {
                lemma_offset3_fits(h as nat, w as nat, 4, x as int, y as int, c as int);
            }
            buf[(x * w + y) * 4 + c]
        };
    let dest = Array3::from_shape_fn(h, w, 3, cell);
    proof {
        assert forall|x: int, y: int, c: int| dest.contains(x, y, c) implies #[trigger] dest.at(
            x,
            y,
            c,
        ) == buf@[offset3(w as nat, 4, x, y, c)] by {
            assert(call_ensures(cell, (x as usize, y as usize, c as usize), dest.at(x, y, c)));
        }
    }
    dest
}

/// Dropping the fourth channel of an expanded image gives the image back.
pub proof fn lemma_expand_then_drop<T>(src: &Array3<T>, alpha: T, buf: Seq<T>, dest: &Array3<T>)
    requires
        src.wf(),
        src.channels() == 3,
        is_rgba(src, alpha, buf),
        is_rgb_of(buf, src.height(), src.width(), dest),
    ensures
        dest.height() == src.height(),
        dest.width() == src.width(),
        dest.channels() == src.channels(),
        forall|x: int, y: int, c: int| src.contains(x, y, c) ==> dest.at(x, y, c) == src.at(x, y, c),
{
    assert forall|x: int, y: int, c: int| src.contains(x, y, c) implies dest.at(x, y, c) == src.at(
        x,
        y,
        c,
    ) by {
        assert(dest.contains(x, y, c));
        assert(dest.at(x, y, c) == buf[offset3(src.width(), 4, x, y, c)]);
    }
}

/// Where the device computes each sample of its answer as the direct
/// loops do, by `dot` on the window under the kernel and the kernel's
/// cells, the image made of its answer meets what the direct linear filter
/// promises of its own result.
pub proof fn lemma_paths_agree<T, F: Fn(&Vec<T>, &Vec<T>) -> T>(
    src: &Array3<T>,
    kernel: &Array2<T>,
    dot: &F,
    buf: Seq<T>,
    dest: &Array3<T>,
)
    requires
        kernel.height() <= src.height(),
        kernel.height() <= src.width(),
        is_rgb_of(
            buf,
            (src.height() - kernel.height() + 1) as nat,
            (src.width() - kernel.height() + 1) as nat,
            dest,
        ),
        forall|x: int, y: int, c: int|
            0 <= x <= src.height() - kernel.height() && 0 <= y <= src.width() - kernel.height()
                && 0 <= c < 3 ==> may_weigh(
                dot,
                window(src, x, y, c, kernel.height()),
                kernel.cells(),
                #[trigger] buf[offset3((src.width() - kernel.height() + 1) as nat, 4, x, y, c)],
            ),
    ensures
        valid_shape(src, kernel.height(), dest),
        forall|x: int, y: int, c: int|
            dest.contains(x, y, c) ==> may_weigh(
                dot,
                window(src, x, y, c, kernel.height()),
                kernel.cells(),
                #[trigger] dest.at(x, y, c),
            ),
{
    let w2 = (src.width() - kernel.height() + 1) as nat;
    assert forall|x: int, y: int, c: int| dest.contains(x, y, c) implies may_weigh(
        dot,
        window(src, x, y, c, kernel.height()),
        kernel.cells(),
        #[trigger] dest.at(x, y, c),
    ) by {
        assert(dest.at(x, y, c) == buf[offset3(w2, 4, x, y, c)]);
    }
}

/// Where the device computes each sample of its canvas as the direct
/// loops do, by `locate` and `interpolate` on the neighborhood with cells
/// outside the image counted as `zero`, the image made of its answer meets
/// what the direct affine transform promises of its own result.
pub proof fn lemma_affine_paths_agree<
    T,
    P,
    L: Fn(usize, usize) -> (isize, isize, P),
    I: Fn(&Vec<T>, &P) -> T,
>(
    src: &Array3<T>,
    h2: nat,
    w2: nat,
    zero: T,
    locate: &L,
    interpolate: &I,
    buf: Seq<T>,
    dest: &Array3<T>,
)
    requires
        is_rgb_of(buf, h2, w2, dest),
        forall|x: int, y: int, c: int|
            0 <= x < h2 && 0 <= y < w2 && 0 <= c < 3 ==> may_sample(
                locate,
                interpolate,
                src,
                x,
                y,
                c,
                zero,
                #[trigger] buf[offset3(w2, 4, x, y, c)],
            ),
    ensures
        dest.wf(),
        dest.height() == h2,
        dest.width() == w2,
        dest.channels() == 3,
        forall|x: int, y: int, c: int|
            dest.contains(x, y, c) ==> may_sample(
                locate,
                interpolate,
                src,
                x,
                y,
                c,
                zero,
                #[trigger] dest.at(x, y, c),
            ),
{
    assert forall|x: int, y: int, c: int| dest.contains(x, y, c) implies may_sample(
        locate,
        interpolate,
        src,
        x,
        y,
        c,
        zero,
        #[trigger] dest.at(x, y, c),
    ) by {
        assert(dest.at(x, y, c) == buf[offset3(w2, 4, x, y, c)]);
    }
}

/// Whether `out` may be what the device answered with: the text of its
/// failure, passed on as an accelerator error, or a buffer of `h2 × w2`
/// pixels of four channels whose first three make up the result.
pub open spec fn answered<T>(
    answer: Result<Vec<T>, String>,
    h2: nat,
    w2: nat,
    out: &Result<Array3<T>, Error>,
) -> bool {
    match (answer, out) {
        (Ok(buf), Ok(dest)) => is_rgb_of(buf@, h2, w2, dest),
        (Err(text), Err(e)) => *e == Error::AcceleratorError(text),
        _ => false,
    }
}

/// The linear filter on the device: `device` gets the image expanded to
/// four channels and the kernel's cells, and answers with the filtered
/// image in the image's layout, one pixel for each position of the kernel
/// inside the image. A failure of the device is passed on and nothing
/// else is tried.
pub fn linear_filter<T: Copy, D: FnOnce(Vec<T>, &Vec<T>) -> Result<Vec<T>, String>>(
    src: &Array3<T>,
    kernel: &Array2<T>,
    alpha: T,
    device: D,
) -> (out: Result<Array3<T>, Error>)
    requires
        src.wf(),
        src.channels() == 3,
        src.height() * src.width() * 4 <= usize::MAX,
        kernel.wf(),
        kernel.height() == kernel.width(),
        1 <= kernel.height() <= src.height(),
        kernel.height() <= src.width(),
        forall|rgba: Vec<T>, weights: &Vec<T>|
            is_rgba(src, alpha, rgba@) && weights@ == kernel.cells() ==> call_requires(
                device,
                (rgba, weights),
            ),
        forall|rgba: Vec<T>, weights: &Vec<T>, buf: Vec<T>|
            #[trigger] call_ensures(device, (rgba, weights), Ok::<Vec<T>, String>(buf))
                ==> buf@.len() == (src.height() - kernel.height() + 1) * (src.width()
                - kernel.height() + 1) * 4,
    ensures
        exists|rgba: Vec<T>, weights: Vec<T>, answer: Result<Vec<T>, String>|
            {
                &&& is_rgba(src, alpha, rgba@)
                &&& weights@ == kernel.cells()
                &&& #[trigger] call_ensures(device, (rgba, &weights), answer)
                &&& answered(
                    answer,
                    (src.height() - kernel.height() + 1) as nat,
                    (src.width() - kernel.height() + 1) as nat,
                    &out,
                )
            },
        match out {
            Ok(dest) => valid_shape(src, kernel.height(), &dest),
            Err(_) => true,
        },
{
    let (h, w, _) = src.dim();
    let (ksize, _) = kernel.dim();
    // Most devices take four-channel images only, so expand first.
    let rgba = expand_rgba(src, alpha);
    match device(rgba, kernel.as_raw()) {
        Ok(buf) => Ok(drop_alpha(&buf, h - ksize + 1, w - ksize + 1)),
        Err(text) => Err(Error::AcceleratorError(text)),
    }
}

/// The affine transform on the device: `device` gets the image expanded
/// to four channels and answers with the `h2 × w2` canvas in the same
/// layout. A failure of the device is passed on and nothing else is
/// tried.
pub fn affine_trans<T: Copy, D: FnOnce(Vec<T>) -> Result<Vec<T>, String>>(
    src: &Array3<T>,
    h2: usize,
    w2: usize,
    alpha: T,
    device: D,
) -> (out: Result<Array3<T>, Error>)
    requires
        src.wf(),
        src.channels() == 3,
        src.height() * src.width() * 4 <= usize::MAX,
        forall|rgba: Vec<T>| is_rgba(src, alpha, rgba@) ==> call_requires(device, (rgba,)),
        forall|rgba: Vec<T>, buf: Vec<T>|
            #[trigger] call_ensures(device, (rgba,), Ok::<Vec<T>, String>(buf)) ==> buf@.len() == h2
                * w2 * 4,
    ensures
        exists|rgba: Vec<T>, answer: Result<Vec<T>, String>|
            {
                &&& is_rgba(src, alpha, rgba@)
                &&& #[trigger] call_ensures(device, (rgba,), answer)
                &&& answered(answer, h2 as nat, w2 as nat, &out)
            },
{
    // Most devices take four-channel images only, so expand first.
    let rgba = expand_rgba(src, alpha);
    match device(rgba) {
        Ok(buf) => Ok(drop_alpha(&buf, h2, w2)),
        Err(text) => Err(Error::AcceleratorError(text)),
    }
}

} // verus!
