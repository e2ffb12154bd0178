//! The image value that processors consume and produce.

use crate::array::{Array2, Array3};
use crate::error::{Error, ImageKind};
use crate::frame::Frame;
use crate::pixels::{nonzero_size, Pixels};
use vstd::prelude::*;

verus! {

/// The image to be processed and rendered: real samples of type `T` in
/// three channels, or complex samples of type `C` in one plane.
#[derive(Clone, Debug, PartialEq)]
pub enum Image<T, C> {
    /// Indexed `[row, column, channel]`, channels red, green, blue.
    Normal(Array3<T>),
    /// Indexed `[row, column]`.
    Complex(Array2<C>),
}

/// Whether `f` may return `v` for `a`.
pub open spec fn may_map<A, R, F: Fn(A) -> R>(f: &F, a: A, v: R) -> bool {
    call_ensures(*f, (a,), v)
}

/// How a decoder describes the colors of its pixels.
#[derive(Clone, Copy, Debug, PartialEq, Eq, Structural)]
pub enum Colorspace {
    /// Red, green, blue.
    Rgb,
    /// Anything else.
    Unknown,
}

/// A decoded picture as a decoder hands it over: interleaved samples, rows
/// `row_stride` bytes apart.
#[derive(Clone, Debug, PartialEq, Eq)]
pub struct Decoded {
    pub bits_per_sample: i32,
    pub colorspace: Colorspace,
    pub height: usize,
    pub width: usize,
    pub row_stride: usize,
    pub pixels: Vec<u8>,
}

impl Decoded {
    /// The picture is 8-bit RGB.
    pub open spec fn supported(&self) -> bool {
        self.bits_per_sample == 8 && self.colorspace == Colorspace::Rgb
    }

    /// Every sample of every pixel lies inside `pixels`, and the samples
    /// can be counted in a machine word.
    pub open spec fn addressable(&self) -> bool {
        &&& self.height * self.width * 3 <= usize::MAX
        &&& self.height > 0 && self.width > 0 ==> (self.height - 1) * self.row_stride
            + self.width * 3 <= self.pixels@.len()
    }

    /// Position in `pixels` of sample `c` of the pixel at row `x`, column
    /// `y`.
    pub open spec fn position(&self, x: int, y: int, c: int) -> int {
        x * self.row_stride + y * 3 + c
    }

    /// Tests [`Decoded::supported`].
    pub fn is_supported(&self) -> (r: bool)
        ensures
            r == self.supported(),
    {
        self.bits_per_sample == 8 && self.colorspace == Colorspace::Rgb
    }

    /// Tests [`Decoded::addressable`].
    pub fn is_addressable(&self) -> (r: bool)
        ensures
            r == self.addressable(),
    {
        let len = self.pixels.len();
        if self.height == 0 || self.width == 0 {
            assert(self.height * self.width * 3 == 0) by (nonlinear_arith)
                requires
                    self.height == 0 || self.width == 0,
            ;
            return true;
        }
        let row = match self.width.checked_mul(3) {
            Some(v) => v,
            None => {
                assert(self.height * self.width * 3 > usize::MAX) by (nonlinear_arith)
                    requires
                        self.width * 3 > usize::MAX,
                        self.height >= 1,
                ;
                return false;
            },
        };
        assert(self.height * self.width * 3 == self.height * (self.width * 3)) by (nonlinear_arith);
        if self.height.checked_mul(row).is_none() {
            return false;
        }
        let above = match (self.height - 1).checked_mul(self.row_stride) {
            Some(v) => v,
            None => {
                return false;
            },
        };
        match above.checked_add(row) {
            Some(end) => end <= len,
            None => false,
        }
    }
}

impl<T, C> Image<T, C> {
    /// Which kind of image this is.
    pub open spec fn kind_spec(&self) -> ImageKind {
        match self {
            Image::Normal(_) => ImageKind::Normal,
            Image::Complex(_) => ImageKind::Complex,
        }
    }

    /// The buffer is well formed, and a normal image has three channels.
    pub open spec fn wf(&self) -> bool {
        match self {
            Image::Normal(a) => a.wf() && a.channels() == 3,
            Image::Complex(a) => a.wf(),
        }
    }

    /// The image's rows and columns.
    pub open spec fn extent(&self) -> (nat, nat) {
        match self {
            Image::Normal(a) => (a.height(), a.width()),
            Image::Complex(a) => (a.height(), a.width()),
        }
    }

    /// The pixel array of the image's rendering, three bytes per pixel,
    /// is one that `ndarray` can hold.
    pub open spec fn renderable(&self) -> bool {
        nonzero_size(self.extent().0, self.extent().1, 3) <= isize::MAX
    }

    /// Tests [`Image::renderable`].
    pub fn is_renderable(&self) -> (r: bool)
        ensures
            r == self.renderable(),
    {
        let (h, w) = match self {
            Image::Normal(a) => {
                let (h, w, _) = a.dim();
                (h, w)
            },
            Image::Complex(a) => a.dim(),
        };
        let a: usize = if h == 0 {
            1
        } else {
            h
        };
        let b: usize = if w == 0 {
            1
        } else {
            w
        };
        let ab = match a.checked_mul(b) {
            Some(v) => v,
            None => {
                assert(a * b * 3 > isize::MAX) by (nonlinear_arith)
                    requires
                        a * b > usize::MAX,
                        usize::MAX > isize::MAX,
                ;
                return false;
            },
        };
        match ab.checked_mul(3) {
            Some(n) => n <= isize::MAX as usize,
            None => false,
        }
    }

    /// Which kind of image this is.
    pub fn kind(&self) -> (r: ImageKind)
        ensures
            r == self.kind_spec(),
    {
        match self {
            Image::Normal(_) => ImageKind::Normal,
            Image::Complex(_) => ImageKind::Complex,
        }
    }

    /// The real buffer of a normal image; a complex image is refused.
    pub fn expect_normal(self) -> (r: Result<Array3<T>, Error>)
        ensures
            match self {
                Image::Normal(a) => r == Ok::<Array3<T>, Error>(a),
                Image::Complex(_) => r == Err::<Array3<T>, Error>(
                    Error::WrongVariant { expected: ImageKind::Normal, found: ImageKind::Complex },
                ),
            },
    {
        match self {
            Image::Normal(img) => Ok(img),
            Image::Complex(_) => Err(
                Error::WrongVariant { expected: ImageKind::Normal, found: ImageKind::Complex },
            ),
        }
    }

    /// The complex buffer of a complex image; a normal image is refused.
    pub fn expect_complex(self) -> (r: Result<Array2<C>, Error>)
        ensures
            match self {
                Image::Complex(a) => r == Ok::<Array2<C>, Error>(a),
                Image::Normal(_) => r == Err::<Array2<C>, Error>(
                    Error::WrongVariant { expected: ImageKind::Complex, found: ImageKind::Normal },
                ),
            },
    {
        match self {
            Image::Complex(img) => Ok(img),
            Image::Normal(_) => Err(
                Error::WrongVariant { expected: ImageKind::Complex, found: ImageKind::Normal },
            ),
        }
    }
}

impl<T: Copy, C: Copy> Image<T, C> {
    /// Turns a decoded picture into a normal image, each byte through
    /// `to_sample`. Anything but 8-bit RGB is refused, and then
    /// `to_sample` is never called.
    pub fn open<F: Fn(u8) -> T>(src: &Decoded, to_sample: &F) -> (r: Result<Self, Error>)
        requires
            src.supported() ==> src.addressable(),
            forall|b: u8| call_requires(*to_sample, (b,)),
        ensures
            !src.supported() ==> r == Err::<Self, Error>(Error::UnsupportedFormat),
            src.supported() ==> r.is_ok() && r.unwrap().wf() && match r.unwrap() {
                Image::Normal(a) => {
                    &&& a.height() == src.height
                    &&& a.width() == src.width
                    &&& forall|x: int, y: int, c: int|
                        a.contains(x, y, c) ==> call_ensures(
                            *to_sample,
                            (src.pixels@[src.position(x, y, c)],),
                            #[trigger] a.at(x, y, c),
                        )
                },
                Image::Complex(_) => false,
            },
    {
        if !src.is_supported() {
            return Err(Error::UnsupportedFormat);
        }
        let h = src.height;
        let w = src.width;
        let stride = src.row_stride;
        let len = src.pixels.len();
        let cell = |x: usize, y: usize, c: usize| -> (v: T)
            requires
                x < h,
                y < w,
                c < 3,
            ensures
                may_map(to_sample, src.pixels@[src.position(x as int, y as int, c as int)], v),
            {
                proof {
                    lemma_position(src, x as int, y as int, c as int);
                }
                to_sample(src.pixels[x * stride + y * 3 + c])
            };
        let mat = Array3::from_shape_fn(h, w, 3, cell);
        proof {
            assert forall|x: int, y: int, c: int| mat.contains(x, y, c) implies call_ensures(
                *to_sample,
                (src.pixels@[src.position(x, y, c)],),
                #[trigger] mat.at(x, y, c),
            ) by {
                assert(call_ensures(cell, (x as usize, y as usize, c as usize), mat.at(x, y, c)));
            }
        }
        Ok(Image::Normal(mat))
    }
}

impl<T: Copy, C: Copy> Image<T, C> {
    /// Whether `px` may be the 8-bit rendering of the image.
    ///
    /// A normal image is rendered sample by sample through `quantize`. For
    /// a complex image `normalizer` is called once on all cells; each cell
    /// is then turned by `gray`, given what `normalizer` returned, into
    /// one byte that fills the pixel's three channels.
    pub open spec fn rendered<S, Q: Fn(T) -> u8, N: Fn(&Vec<C>) -> S, G: Fn(C, &S) -> u8>(
        &self,
        quantize: &Q,
        normalizer: &N,
        gray: &G,
        px: &Pixels,
    ) -> bool {
        &&& px.wf()
        &&& px.shape() == (self.extent().0, self.extent().1, 3nat)
        &&& match self {
            Image::Normal(a) => forall|x: int, y: int, c: int|
                a.contains(x, y, c) ==> call_ensures(
                    *quantize,
                    (a.at(x, y, c),),
                    #[trigger] px.at(x, y, c),
                ),
            Image::Complex(a) => exists|cells: Vec<C>, s: S|
                {
                    &&& cells@ == a.cells()
                    &&& #[trigger] call_ensures(*normalizer, (&cells,), s)
                    &&& forall|x: int, y: int|
                        a.contains(x, y) ==> {
                            &&& call_ensures(*gray, (a.at(x, y), &s), #[trigger] px.at(x, y, 0))
                            &&& px.at(x, y, 1) == px.at(x, y, 0)
                            &&& px.at(x, y, 2) == px.at(x, y, 0)
                        }
                },
        }
    }

    /// Projects the image to 8-bit samples in three channels.
    pub fn to_pixels<S, Q: Fn(T) -> u8, N: Fn(&Vec<C>) -> S, G: Fn(C, &S) -> u8>(
        &self,
        quantize: &Q,
        normalizer: &N,
        gray: &G,
    ) -> (px: Pixels)
        requires
            self.wf(),
            self.renderable(),
            forall|v: T| call_requires(*quantize, (v,)),
            forall|cells: &Vec<C>| call_requires(*normalizer, (cells,)),
            forall|v: C, s: &S| call_requires(*gray, (v, s)),
        ensures
            self.rendered(quantize, normalizer, gray, &px),
    {
        match self {
            Image::Normal(mat) => {
                let (h, w, _) = mat.dim();
                let cell = |x: usize, y: usize, c: usize| -> (v: u8)
                    requires
                        x < h,
                        y < w,
                        c < 3,
                    ensures
                        may_map(quantize, mat.at(x as int, y as int, c as int), v),
                    { quantize(mat.get(x, y, c)) };
                let px = Pixels::from_shape_fn(h, w, 3, cell);
                proof {
                    assert forall|x: int, y: int, c: int| mat.contains(x, y, c) implies call_ensures(
                        *quantize,
                        (mat.at(x, y, c),),
                        #[trigger] px.at(x, y, c),
                    ) by {
                        assert(call_ensures(
                            cell,
                            (x as usize, y as usize, c as usize),
                            px.at(x, y, c),
                        ));
                    }
                }
                px
            },
            Image::Complex(mat) => {
                let (h, w) = mat.dim();
                proof {
                    lemma_nonzero_size(h as nat, w as nat);
                }
                let cells = mat.as_raw();
                let s = normalizer(cells);
                let level = |x: usize, y: usize| -> (v: u8)
                    requires
                        x < h,
                        y < w,
                    ensures
                        call_ensures(*gray, (mat.at(x as int, y as int), &s), v),
                    { gray(mat.get(x, y), &s) };
                let grays = Array2::from_shape_fn(h, w, level);
                let cell = |x: usize, y: usize, c: usize| -> (v: u8)
                    requires
                        x < h,
                        y < w,
                    ensures
                        v == grays.at(x as int, y as int),
                    { grays.get(x, y) };
                let px = Pixels::from_shape_fn(h, w, 3, cell);
                proof {
                    assert forall|x: int, y: int| mat.contains(x, y) implies {
                        &&& call_ensures(*gray, (mat.at(x, y), &s), #[trigger] px.at(x, y, 0))
                        &&& px.at(x, y, 1) == px.at(x, y, 0)
                        &&& px.at(x, y, 2) == px.at(x, y, 0)
                    } by {
                        assert(call_ensures(level, (x as usize, y as usize), grays.at(x, y)));
                        assert(call_ensures(cell, (x as usize, y as usize, 0usize), px.at(x, y, 0)));
                        assert(call_ensures(cell, (x as usize, y as usize, 1usize), px.at(x, y, 1)));
                        assert(call_ensures(cell, (x as usize, y as usize, 2usize), px.at(x, y, 2)));
                    }
                    assert(call_ensures(*normalizer, (cells,), s));
                }
                px
            },
        }
    }

    /// Renders the image as a packed RGB frame for display.
    pub fn render<S, Q: Fn(T) -> u8, N: Fn(&Vec<C>) -> S, G: Fn(C, &S) -> u8>(
        &self,
        quantize: &Q,
        normalizer: &N,
        gray: &G,
    ) -> (frame: Frame)
        requires
            self.wf(),
            self.renderable(),
            forall|v: T| call_requires(*quantize, (v,)),
            forall|cells: &Vec<C>| call_requires(*normalizer, (cells,)),
            forall|v: C, s: &S| call_requires(*gray, (v, s)),
        ensures
            frame.wf(),
            frame.rows() == self.extent().0,
            frame.cols() == self.extent().1,
            exists|px: Pixels|
                px.cells() == frame.bytes() && #[trigger] self.rendered(
                    quantize,
                    normalizer,
                    gray,
                    &px,
                ),
    {
        let px = self.to_pixels(quantize, normalizer, gray);
        let (h, w, _) = px.dim();
        let ghost snapshot = px;
        let raw = px.into_raw_vec();
        proof {
            lemma_nonzero_size(h as nat, w as nat);
            assert(h * w * 3 == h * (w * 3)) by (nonlinear_arith);
        }
        let frame = Frame::from_rgb(h, w, raw);
        proof {
            assert(self.rendered(quantize, normalizer, gray, &snapshot));
        }
        frame.unwrap()
    }
}

/// Three samples per pixel of an `h × w` image are no more than the
/// product of the non-zero lengths among `h`, `w` and 3, and neither are
/// the samples of one row nor the pixels.
pub proof fn lemma_nonzero_size(h: nat, w: nat)
    ensures
        h * w * 3 <= nonzero_size(h, w, 3),
        w * 3 <= nonzero_size(h, w, 3),
        h * w <= nonzero_size(h, w, 3),
{
    let a: nat = if h == 0 {
        1
    } else {
        h
    };
    let b: nat = if w == 0 {
        1
    } else {
        w
    };
    assert(nonzero_size(h, w, 3) == a * b * 3);
    assert(h * w * 3 <= a * b * 3 && w * 3 <= a * b * 3 && h * w <= a * b * 3) by (nonlinear_arith)
        requires
            h <= a,
            w <= b,
            a >= 1,
            b >= 1,
    ;
}

/// In an addressable picture every sample's position, and each step of
/// computing it, lies inside the pixel buffer.
pub proof fn lemma_position(src: &Decoded, x: int, y: int, c: int)
    requires
        src.addressable(),
        0 <= x < src.height,
        0 <= y < src.width,
        0 <= c < 3,
    ensures
        0 <= x * src.row_stride <= x * src.row_stride + y * 3 <= src.position(x, y, c)
            < src.pixels@.len(),
{
    let s = src.row_stride as int;
    assert(0 <= x * s <= (src.height - 1) * s) by (nonlinear_arith)
        requires
            0 <= x <= src.height - 1,
            0 <= s,
    ;
}

} // verus!
