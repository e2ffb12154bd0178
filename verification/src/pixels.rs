//! The eight-bit samples of a rendering, kept in an `ndarray` array.

use crate::array::{before3, lemma_offset3_bound, lemma_offset3_order, offset3};
use vstd::prelude::*;

verus! {

/// An array of eight-bit samples indexed `[row, column, channel]`, held by
/// `ndarray`. Every value starts as an array of zeros in the crate's
/// default layout, row-major, and is only ever written cell by cell.
#[verifier::external_body]
pub struct Pixels {
    inner: ndarray::Array3<u8>,
}

/// The samples of a pixel array in its logical order: row by row, pixel by
/// pixel, channel by channel.
pub uninterp spec fn pixel_cells(px: Pixels) -> Seq<u8>;

/// The lengths of the three axes of a pixel array.
pub uninterp spec fn pixel_shape(px: Pixels) -> (nat, nat, nat);

/// The product of the axis lengths that are not zero, which `ndarray`
/// bounds by `isize::MAX`.
pub open spec fn nonzero_size(h: nat, w: nat, ch: nat) -> nat {
    (if h == 0 {
        1
    } else {
        h
    }) * (if w == 0 {
        1
    } else {
        w
    }) * (if ch == 0 {
        1
    } else {
        ch
    })
}

/// `ndarray::Array3::zeros`: an array of the given shape, one cell per
/// index, every cell zero. The crate panics where the product of the
/// non-zero axis lengths overflows `isize`, which the precondition leaves
/// out.
#[verifier::external_body]
fn zeros(h: usize, w: usize, ch: usize) -> (px: Pixels)
    requires
        nonzero_size(h as nat, w as nat, ch as nat) <= isize::MAX,
    ensures
        pixel_shape(px) == (h as nat, w as nat, ch as nat),
        pixel_cells(px).len() == h * w * ch,
        forall|i: int| 0 <= i < pixel_cells(px).len() ==> pixel_cells(px)[i] == 0,
{
    Pixels { inner: ndarray::Array3::zeros((h, w, ch)) }
}

/// Assignment through `ndarray`'s `IndexMut` with a `[usize; 3]` index:
/// the cell at `(x, y, c)` takes the value, every other cell and the shape
/// stay. The crate panics on an index outside the array, which the
/// precondition leaves out.
#[verifier::external_body]
fn put(px: &mut Pixels, x: usize, y: usize, c: usize, value: u8)
    requires
        x < pixel_shape(*old(px)).0,
        y < pixel_shape(*old(px)).1,
        c < pixel_shape(*old(px)).2,
    ensures
        pixel_shape(*final(px)) == pixel_shape(*old(px)),
        pixel_cells(*final(px)) == pixel_cells(*old(px)).update(
            offset3(pixel_shape(*old(px)).1, pixel_shape(*old(px)).2, x as int, y as int, c as int),
            value,
        ),
{
    px.inner[[x, y, c]] = value;
}

/// `ndarray`'s `ArrayBase::dim`: the lengths of the three axes.
#[verifier::external_body]
fn dim_of(px: &Pixels) -> (r: (usize, usize, usize))
    ensures
        r.0 == pixel_shape(*px).0,
        r.1 == pixel_shape(*px).1,
        r.2 == pixel_shape(*px).2,
{
    px.inner.dim()
}

/// `ndarray::Array::into_raw_vec`: the cells as they are stored, which for
/// an array in the default layout is their logical order.
#[verifier::external_body]
fn raw_vec_of(px: Pixels) -> (r: Vec<u8>)
    ensures
        r@ == pixel_cells(px),
{
    px.inner.into_raw_vec()
}

impl Pixels {
    /// The lengths of the three axes.
    pub open spec fn shape(&self) -> (nat, nat, nat) {
        pixel_shape(*self)
    }

    /// The samples in row-major order.
    pub open spec fn cells(&self) -> Seq<u8> {
        pixel_cells(*self)
    }

    /// The array holds exactly one sample per index.
    pub open spec fn wf(&self) -> bool {
        self.cells().len() == self.shape().0 * self.shape().1 * self.shape().2
    }

    /// The sample at `(x, y, c)`.
    pub open spec fn at(&self, x: int, y: int, c: int) -> u8 {
        self.cells()[offset3(self.shape().1, self.shape().2, x, y, c)]
    }

    /// Whether `(x, y, c)` is a cell of the array.
    pub open spec fn contains(&self, x: int, y: int, c: int) -> bool {
        0 <= x < self.shape().0 && 0 <= y < self.shape().1 && 0 <= c < self.shape().2
    }

    /// An array of the given shape whose cell `(x, y, c)` is what `f`
    /// returns for `(x, y, c)`; `f` is called once per cell, in row-major
    /// order.
    pub fn from_shape_fn<F: Fn(usize, usize, usize) -> u8>(h: usize, w: usize, ch: usize, f: F) -> (px:
        Pixels)
        requires
            nonzero_size(h as nat, w as nat, ch as nat) <= isize::MAX,
            forall|x: usize, y: usize, c: usize|
                x < h && y < w && c < ch ==> call_requires(f, (x, y, c)),
        ensures
            px.wf(),
            px.shape() == (h as nat, w as nat, ch as nat),
            forall|x: int, y: int, c: int|
                px.contains(x, y, c) ==> call_ensures(
                    f,
                    (x as usize, y as usize, c as usize),
                    #[trigger] px.at(x, y, c),
                ),
    {
        let ghost wn = w as nat;
        let ghost cn = ch as nat;
        let mut px = zeros(h, w, ch);
        let mut x: usize = 0;
        while x < h
            invariant
                x <= h,
                wn == w,
                cn == ch,
                px.wf(),
                px.shape() == (h as nat, wn, cn),
                forall|x: usize, y: usize, c: usize|
                    x < h && y < w && c < ch ==> call_requires(f, (x, y, c)),
                forall|x1: int, y1: int, c1: int|
                    0 <= x1 < x && 0 <= y1 < w && 0 <= c1 < ch ==> call_ensures(
                        f,
                        (x1 as usize, y1 as usize, c1 as usize),
                        #[trigger] px.cells()[offset3(wn, cn, x1, y1, c1)],
                    ),
            decreases h - x,
        {
            let mut y: usize = 0;
            while y < w
                invariant
                    x < h,
                    y <= w,
                    wn == w,
                    cn == ch,
                    px.wf(),
                    px.shape() == (h as nat, wn, cn),
                    forall|x: usize, y: usize, c: usize|
                        x < h && y < w && c < ch ==> call_requires(f, (x, y, c)),
                    forall|x1: int, y1: int, c1: int|
                        0 <= x1 <= x && 0 <= y1 < w && 0 <= c1 < ch && before3(
                            x1,
                            y1,
                            c1,
                            x as int,
                            y as int,
                            0,
                        ) ==> call_ensures(
                            f,
                            (x1 as usize, y1 as usize, c1 as usize),
                            #[trigger] px.cells()[offset3(wn, cn, x1, y1, c1)],
                        ),
                decreases w - y,
            {
                let mut c: usize = 0;
                while c < ch
                    invariant
                        x < h,
                        y < w,
                        c <= ch,
                        wn == w,
                        cn == ch,
                        px.wf(),
                        px.shape() == (h as nat, wn, cn),
                        forall|x: usize, y: usize, c: usize|
                            x < h && y < w && c < ch ==> call_requires(f, (x, y, c)),
                        forall|x1: int, y1: int, c1: int|
                            0 <= x1 <= x && 0 <= y1 < w && 0 <= c1 < ch && before3(
                                x1,
                                y1,
                                c1,
                                x as int,
                                y as int,
                                c as int,
                            ) ==> call_ensures(
                                f,
                                (x1 as usize, y1 as usize, c1 as usize),
                                #[trigger] px.cells()[offset3(wn, cn, x1, y1, c1)],
                            ),
                    decreases ch - c,
                {
                    let v = f(x, y, c);
                    let ghost before = px.cells();
                    put(&mut px, x, y, c, v);
                    proof {
                        lemma_offset3_bound(h as nat, wn, cn, x as int, y as int, c as int);
                        assert forall|x1: int, y1: int, c1: int|
                            0 <= x1 <= x && 0 <= y1 < w && 0 <= c1 < ch && before3(
                                x1,
                                y1,
                                c1,
                                x as int,
                                y as int,
                                c as int + 1,
                            ) implies call_ensures(
                            f,
                            (x1 as usize, y1 as usize, c1 as usize),
                            #[trigger] px.cells()[offset3(wn, cn, x1, y1, c1)],
                        ) by {
                            lemma_offset3_order(wn, cn, x1, y1, c1, x as int, y as int, c as int);
                            lemma_offset3_bound(h as nat, wn, cn, x1, y1, c1);
                            if before3(x1, y1, c1, x as int, y as int, c as int) {
                                assert(px.cells()[offset3(wn, cn, x1, y1, c1)] == before[offset3(
                                    wn,
                                    cn,
                                    x1,
                                    y1,
                                    c1,
                                )]);
                            }
                        }
                    }
                    c += 1;
                }
                y += 1;
            }
            x += 1;
        }
        px
    }

    /// The shape `(rows, columns, channels)`.
    pub fn dim(&self) -> (r: (usize, usize, usize))
        ensures
            r.0 == self.shape().0,
            r.1 == self.shape().1,
            r.2 == self.shape().2,
    {
        dim_of(self)
    }

    /// Gives up the array for its samples in row-major order.
    pub fn into_raw_vec(self) -> (r: Vec<u8>)
        ensures
            r@ == self.cells(),
    {
        raw_vec_of(self)
    }
}

} // verus!
