//! Packed 8-bit RGB frames, as handed to a display.

use vstd::prelude::*;

verus! {

/// An RGB frame: `height` rows of `width` pixels, three bytes per pixel,
/// rows `row_stride` bytes apart.
#[derive(Clone, Debug, PartialEq, Eq)]
pub struct Frame {
    height: usize,
    width: usize,
    row_stride: usize,
    data: Vec<u8>,
}

impl Frame {
    /// Number of rows.
    pub closed spec fn rows(&self) -> nat {
        self.height as nat
    }

    /// Number of pixels per row.
    pub closed spec fn cols(&self) -> nat {
        self.width as nat
    }

    /// Distance in bytes between the starts of consecutive rows.
    pub closed spec fn stride(&self) -> nat {
        self.row_stride as nat
    }

    /// The bytes of the frame.
    pub closed spec fn bytes(&self) -> Seq<u8> {
        self.data@
    }

    /// Rows are packed without padding and the buffer holds exactly the
    /// rows.
    pub open spec fn wf(&self) -> bool {
        &&& self.stride() == 3 * self.cols()
        &&& self.bytes().len() == self.rows() * self.stride()
    }

    /// Sample `c` (0 red, 1 green, 2 blue) of the pixel at row `x`, column
    /// `y`.
    pub open spec fn sample(&self, x: int, y: int, c: int) -> u8 {
        self.bytes()[x * self.stride() + y * 3 + c]
    }

    /// Wraps packed RGB bytes; `None` unless a row's length fits the
    /// machine word and there are `height * width * 3` bytes.
    pub fn from_rgb(height: usize, width: usize, data: Vec<u8>) -> (r: Option<Frame>)
        ensures
            r.is_some() <==> width * 3 <= usize::MAX && data@.len() == height * (width * 3),
            r.is_some() ==> {
                let f = r.unwrap();
                &&& f.wf()
                &&& f.rows() == height
                &&& f.cols() == width
                &&& f.bytes() == data@
            },
    {
        let len = data.len();
        let row_stride = match width.checked_mul(3) {
            Some(v) => v,
            None => {
                return None;
            },
        };
        match height.checked_mul(row_stride) {
            Some(n) => {
                if len == n {
                    Some(Frame { height, width, row_stride, data })
                } else {
                    None
                }
            },
            None => None,
        }
    }

    /// Number of rows.
    pub fn height(&self) -> (r: usize)
        ensures
            r == self.rows(),
    {
        self.height
    }

    /// Number of pixels per row.
    pub fn width(&self) -> (r: usize)
        ensures
            r == self.cols(),
    {
        self.width
    }

    /// Distance in bytes between the starts of consecutive rows.
    pub fn row_stride(&self) -> (r: usize)
        ensures
            r == self.stride(),
    {
        self.row_stride
    }

    /// The bytes of the frame, borrowed.
    pub fn data(&self) -> (r: &Vec<u8>)
        ensures
            r@ == self.bytes(),
    {
        &self.data
    }

    /// Gives up the frame for its bytes.
    pub fn into_data(self) -> (r: Vec<u8>)
        ensures
            r@ == self.bytes(),
    {
        self.data
    }
}

} // verus!
