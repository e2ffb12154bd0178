//! Dense row-major buffers of two and three dimensions.
//!
//! The element type is a parameter: the engine moves samples around and
//! leaves their arithmetic to the caller.

use vstd::prelude::*;

verus! {

/// Position of cell `(x, y, c)` in a row-major buffer whose rows hold `w`
/// pixels of `ch` channels each.
pub open spec fn offset3(w: nat, ch: nat, x: int, y: int, c: int) -> int {
    (x * w + y) * ch + c
}

/// Position of cell `(x, y)` in a row-major buffer whose rows hold `w`
/// cells.
pub open spec fn offset2(w: nat, x: int, y: int) -> int {
    x * w + y
}

/// Whether `(x1, y1, c1)` comes before `(x2, y2, c2)` in row-major order.
pub open spec fn before3(x1: int, y1: int, c1: int, x2: int, y2: int, c2: int) -> bool {
    x1 < x2 || (x1 == x2 && (y1 < y2 || (y1 == y2 && c1 < c2)))
}

/// Whether `(x1, y1)` comes before `(x2, y2)` in row-major order.
pub open spec fn before2(x1: int, y1: int, x2: int, y2: int) -> bool {
    x1 < x2 || (x1 == x2 && y1 < y2)
}

/// A cell inside an `h × w × ch` buffer lies inside its flat storage.
pub proof fn lemma_offset3_bound(h: nat, w: nat, ch: nat, x: int, y: int, c: int)
    requires
        0 <= x < h,
        0 <= y < w,
        0 <= c < ch,
    ensures
        0 <= offset3(w, ch, x, y, c) < h * w * ch,
        0 <= x * w + y < h * w,
{
    assert(0 <= x * w + y < h * w) by (nonlinear_arith)
        requires
            0 <= x < h,
            0 <= y < w,
    ;
    let r = x * w + y;
    let n = (h * w) as int;
    assert(0 <= r * ch + c < n * ch) by (nonlinear_arith)
        requires
            0 <= r < n,
            0 <= c < ch,
    ;
}

/// Every partial result of computing a cell's flat position stays below
/// the size of the storage.
pub proof fn lemma_offset3_fits(h: nat, w: nat, ch: nat, x: int, y: int, c: int)
    requires
        0 <= x < h,
        0 <= y < w,
        0 <= c < ch,
    ensures
        0 <= x * w <= x * w + y < h * w * ch,
        0 <= (x * w + y) * ch <= offset3(w, ch, x, y, c) < h * w * ch,
{
    lemma_offset3_bound(h, w, ch, x, y, c);
    assert(0 <= x * w) by (nonlinear_arith)
        requires
            0 <= x,
            0 <= w,
    ;
    let r = x * w + y;
    let n = (h * w) as int;
    assert(n <= n * ch) by (nonlinear_arith)
        requires
            0 <= n,
            1 <= ch,
    ;
    assert(0 <= r * ch) by (nonlinear_arith)
        requires
            0 <= r,
            0 <= ch,
    ;
}

/// Row-major order agrees with the order of flat positions.
pub proof fn lemma_offset3_order(
    w: nat,
    ch: nat,
    x1: int,
    y1: int,
    c1: int,
    x2: int,
    y2: int,
    c2: int,
)
    requires
        0 <= x1,
        0 <= x2,
        0 <= y1 < w,
        0 <= y2 < w,
        0 <= c1 < ch,
        0 <= c2 < ch,
    ensures
        before3(x1, y1, c1, x2, y2, c2) <==> offset3(w, ch, x1, y1, c1) < offset3(
            w,
            ch,
            x2,
            y2,
            c2,
        ),
        (x1 == x2 && y1 == y2 && c1 == c2) <==> offset3(w, ch, x1, y1, c1) == offset3(
            w,
            ch,
            x2,
            y2,
            c2,
        ),
{
    let r1 = x1 * w + y1;
    let r2 = x2 * w + y2;
    assert(x1 < x2 ==> r1 < r2) by (nonlinear_arith)
        requires
            r1 == x1 * w + y1,
            r2 == x2 * w + y2,
            0 <= y1 < w,
            0 <= y2 < w,
    ;
    assert(x2 < x1 ==> r2 < r1) by (nonlinear_arith)
        requires
            r1 == x1 * w + y1,
            r2 == x2 * w + y2,
            0 <= y1 < w,
            0 <= y2 < w,
    ;
    assert(r1 < r2 ==> r1 * ch + c1 < r2 * ch + c2) by (nonlinear_arith)
        requires
            0 <= c1 < ch,
            0 <= c2 < ch,
    ;
    assert(r2 < r1 ==> r2 * ch + c2 < r1 * ch + c1) by (nonlinear_arith)
        requires
            0 <= c1 < ch,
            0 <= c2 < ch,
    ;
}

/// A cell inside an `h × w` buffer lies inside its flat storage.
pub proof fn lemma_offset2_bound(h: nat, w: nat, x: int, y: int)
    requires
        0 <= x < h,
        0 <= y < w,
    ensures
        0 <= offset2(w, x, y) < h * w,
{
    assert(0 <= x * w + y < h * w) by (nonlinear_arith)
        requires
            0 <= x < h,
            0 <= y < w,
    ;
}

/// Row-major order agrees with the order of flat positions.
pub proof fn lemma_offset2_order(w: nat, x1: int, y1: int, x2: int, y2: int)
    requires
        0 <= y1 < w,
        0 <= y2 < w,
    ensures
        before2(x1, y1, x2, y2) <==> offset2(w, x1, y1) < offset2(w, x2, y2),
        (x1 == x2 && y1 == y2) <==> offset2(w, x1, y1) == offset2(w, x2, y2),
{
    let r1 = x1 * w + y1;
    let r2 = x2 * w + y2;
    assert(x1 < x2 ==> r1 < r2) by (nonlinear_arith)
        requires
            r1 == x1 * w + y1,
            r2 == x2 * w + y2,
            0 <= y1 < w,
            0 <= y2 < w,
    ;
    assert(x2 < x1 ==> r2 < r1) by (nonlinear_arith)
        requires
            r1 == x1 * w + y1,
            r2 == x2 * w + y2,
            0 <= y1 < w,
            0 <= y2 < w,
    ;
}

/// A dense buffer indexed `[row, column, channel]`.
#[derive(Clone, Debug, PartialEq)]
pub struct Array3<T> {
    h: usize,
    w: usize,
    ch: usize,
    data: Vec<T>,
}

impl<T> Array3<T> {
    /// Number of rows.
    pub closed spec fn height(&self) -> nat {
        self.h as nat
    }

    /// Number of columns.
    pub closed spec fn width(&self) -> nat {
        self.w as nat
    }

    /// Number of channels per pixel.
    pub closed spec fn channels(&self) -> nat {
        self.ch as nat
    }

    /// The cells in row-major order.
    pub closed spec fn cells(&self) -> Seq<T> {
        self.data@
    }

    /// The storage holds exactly one cell per index.
    pub open spec fn wf(&self) -> bool {
        self.cells().len() == self.height() * self.width() * self.channels()
    }

    /// The cell at `(x, y, c)`.
    pub open spec fn at(&self, x: int, y: int, c: int) -> T {
        self.cells()[offset3(self.width(), self.channels(), x, y, c)]
    }

    /// Whether `(x, y, c)` is a cell of the buffer.
    pub open spec fn contains(&self, x: int, y: int, c: int) -> bool {
        0 <= x < self.height() && 0 <= y < self.width() && 0 <= c < self.channels()
    }

    /// Wraps row-major storage; `None` when its length is not `h * w * ch`.
    pub fn from_shape_vec(h: usize, w: usize, ch: usize, data: Vec<T>) -> (r: Option<Self>)
        ensures
            r.is_some() <==> data@.len() == h * w * ch,
            r.is_some() ==> {
                let a = r.unwrap();
                &&& a.wf()
                &&& a.height() == h
                &&& a.width() == w
                &&& a.channels() == ch
                &&& a.cells() == data@
            },
    {
        let len = data.len();
        if h == 0 || w == 0 || ch == 0 {
            assert(h * w * ch == 0) by (nonlinear_arith)
                requires
                    h == 0 || w == 0 || ch == 0,
            ;
            if len == 0 {
                return Some(Array3 { h, w, ch, data });
            }
            return None;
        }
        let hw = match h.checked_mul(w) {
            Some(v) => v,
            None => {
                assert(h * w * ch > usize::MAX) by (nonlinear_arith)
                    requires
                        h * w > usize::MAX,
                        ch >= 1,
                ;
                return None;
            },
        };
        let n = match hw.checked_mul(ch) {
            Some(v) => v,
            None => {
                return None;
            },
        };
        if len == n {
            Some(Array3 { h, w, ch, data })
        } else {
            None
        }
    }

    /// The shape `(rows, columns, channels)`.
    pub fn dim(&self) -> (r: (usize, usize, usize))
        ensures
            r.0 == self.height(),
            r.1 == self.width(),
            r.2 == self.channels(),
    {
        (self.h, self.w, self.ch)
    }

    /// Gives up the buffer for its row-major storage.
    pub fn into_raw_vec(self) -> (r: Vec<T>)
        ensures
            r@ == self.cells(),
    {
        self.data
    }

    /// The row-major storage, borrowed.
    pub fn as_raw(&self) -> (r: &Vec<T>)
        ensures
            r@ == self.cells(),
    {
        &self.data
    }
}

impl<T: Copy> Array3<T> {
    /// A buffer of the given shape with every cell equal to `fill`.
    pub fn from_elem(h: usize, w: usize, ch: usize, fill: T) -> (r: Self)
        requires
            h * w * ch <= usize::MAX,
        ensures
            r.wf(),
            r.height() == h,
            r.width() == w,
            r.channels() == ch,
            forall|i: int| 0 <= i < r.cells().len() ==> r.cells()[i] == fill,
    {
        proof {
            lemma_product_fits(h as nat, w as nat, ch as nat);
        }
        let n = if h == 0 || w == 0 || ch == 0 {
            0
        } else {
            h * w * ch
        };
        let mut data: Vec<T> = Vec::new();
        let mut i: usize = 0;
        while i < n
            invariant
                i <= n,
                data@.len() == i,
                forall|k: int| 0 <= k < i ==> data@[k] == fill,
            decreases n - i,
        {
            data.push(fill);
            i += 1;
        }
        Array3 { h, w, ch, data }
    }

    /// A buffer of the given shape whose cell `(x, y, c)` is what `f`
    /// returns for `(x, y, c)`; `f` is called once per cell, in row-major
    /// order.
    pub fn from_shape_fn<F: Fn(usize, usize, usize) -> T>(
        h: usize,
        w: usize,
        ch: usize,
        f: F,
    ) -> (r: Self)
        requires
            h * w * ch <= usize::MAX,
            forall|x: usize, y: usize, c: usize|
                x < h && y < w && c < ch ==> call_requires(f, (x, y, c)),
        ensures
            r.wf(),
            r.height() == h,
            r.width() == w,
            r.channels() == ch,
            forall|x: int, y: int, c: int|
                0 <= x < h && 0 <= y < w && 0 <= c < ch ==> call_ensures(
                    f,
                    (x as usize, y as usize, c as usize),
                    #[trigger] r.at(x, y, c),
                ),
    {
        let ghost wn = w as nat;
        let ghost cn = ch as nat;
        let mut data: Vec<T> = Vec::new();
        let mut x: usize = 0;
        proof {
            assert(offset3(wn, cn, 0, 0, 0) == 0) by (nonlinear_arith);
        }
        while x < h
            invariant
                x <= h,
                h * w * ch <= usize::MAX,
                wn == w,
                cn == ch,
                forall|x: usize, y: usize, c: usize|
                    x < h && y < w && c < ch ==> call_requires(f, (x, y, c)),
                data@.len() == offset3(wn, cn, x as int, 0, 0),
                forall|x1: int, y1: int, c1: int|
                    0 <= x1 < x && 0 <= y1 < w && 0 <= c1 < ch ==> call_ensures(
                        f,
                        (x1 as usize, y1 as usize, c1 as usize),
                        #[trigger] data@[offset3(wn, cn, x1, y1, c1)],
                    ),
            decreases h - x,
        {
            let mut y: usize = 0;
            while y < w
                invariant
                    x < h,
                    y <= w,
                    h * w * ch <= usize::MAX,
                    wn == w,
                    cn == ch,
                    forall|x: usize, y: usize, c: usize|
                        x < h && y < w && c < ch ==> call_requires(f, (x, y, c)),
                    data@.len() == offset3(wn, cn, x as int, y as int, 0),
                    forall|x1: int, y1: int, c1: int|
                        0 <= x1 <= x && 0 <= y1 < w && 0 <= c1 < ch && before3(
                            x1,
                            y1,
                            c1,
                            x as int,
                            y as int,
                            0,
                        ) ==> call_ensures(
                            f,
                            (x1 as usize, y1 as usize, c1 as usize),
                            #[trigger] data@[offset3(wn, cn, x1, y1, c1)],
                        ),
                decreases w - y,
            {
                let mut c: usize = 0;
                while c < ch
                    invariant
                        x < h,
                        y < w,
                        c <= ch,
                        h * w * ch <= usize::MAX,
                        wn == w,
                        cn == ch,
                        forall|x: usize, y: usize, c: usize|
                            x < h && y < w && c < ch ==> call_requires(f, (x, y, c)),
                        data@.len() == offset3(wn, cn, x as int, y as int, c as int),
                        forall|x1: int, y1: int, c1: int|
                            0 <= x1 <= x && 0 <= y1 < w && 0 <= c1 < ch && before3(
                                x1,
                                y1,
                                c1,
                                x as int,
                                y as int,
                                c as int,
                            ) ==> call_ensures(
                                f,
                                (x1 as usize, y1 as usize, c1 as usize),
                                #[trigger] data@[offset3(wn, cn, x1, y1, c1)],
                            ),
                    decreases ch - c,
                {
                    let v = f(x, y, c);
                    let ghost before = data@;
                    data.push(v);
                    proof {
                        assert forall|x1: int, y1: int, c1: int|
                            0 <= x1 <= x && 0 <= y1 < w && 0 <= c1 < ch && before3(
                                x1,
                                y1,
                                c1,
                                x as int,
                                y as int,
                                c as int + 1,
                            ) implies call_ensures(
                            f,
                            (x1 as usize, y1 as usize, c1 as usize),
                            #[trigger] data@[offset3(wn, cn, x1, y1, c1)],
                        ) by {
                            lemma_offset3_order(wn, cn, x1, y1, c1, x as int, y as int, c as int);
                            if before3(x1, y1, c1, x as int, y as int, c as int) {
                                assert(data@[offset3(wn, cn, x1, y1, c1)] == before[offset3(
                                    wn,
                                    cn,
                                    x1,
                                    y1,
                                    c1,
                                )]);
                            }
                        }
                    }
                    c += 1;
                }
                proof {
                    assert(offset3(wn, cn, x as int, y as int, ch as int) == offset3(
                        wn,
                        cn,
                        x as int,
                        y as int + 1,
                        0,
                    )) by (nonlinear_arith)
                        requires
                            cn == ch,
                    ;
                }
                y += 1;
            }
            proof {
                assert(offset3(wn, cn, x as int, w as int, 0) == offset3(
                    wn,
                    cn,
                    x as int + 1,
                    0,
                    0,
                )) by (nonlinear_arith)
                    requires
                        wn == w,
                ;
            }
            x += 1;
        }
        proof {
            assert(offset3(wn, cn, h as int, 0, 0) == h * w * ch) by (nonlinear_arith)
                requires
                    wn == w,
                    cn == ch,
            ;
        }
        Array3 { h, w, ch, data }
    }

    /// Reads the cell at `(x, y, c)`.
    pub fn get(&self, x: usize, y: usize, c: usize) -> (r: T)
        requires
            self.wf(),
            self.contains(x as int, y as int, c as int),
        ensures
            r == self.at(x as int, y as int, c as int),
    {
        proof {
            lemma_offset3_bound(
                self.height(),
                self.width(),
                self.channels(),
                x as int,
                y as int,
                c as int,
            );
            lemma_offset3_fits(
                self.height(),
                self.width(),
                self.channels(),
                x as int,
                y as int,
                c as int,
            );
        }
        let len = self.data.len();
        assert(len == self.height() * self.width() * self.channels());
        self.data[(x * self.w + y) * self.ch + c]
    }

    /// Overwrites the cell at `(x, y, c)`.
    pub fn set(&mut self, x: usize, y: usize, c: usize, value: T)
        requires
            old(self).wf(),
            old(self).contains(x as int, y as int, c as int),
        ensures
            final(self).wf(),
            final(self).height() == old(self).height(),
            final(self).width() == old(self).width(),
            final(self).channels() == old(self).channels(),
            final(self).cells() == old(self).cells().update(
                offset3(old(self).width(), old(self).channels(), x as int, y as int, c as int),
                value,
            ),
    {
        proof {
            lemma_offset3_bound(
                self.height(),
                self.width(),
                self.channels(),
                x as int,
                y as int,
                c as int,
            );
            lemma_offset3_fits(
                self.height(),
                self.width(),
                self.channels(),
                x as int,
                y as int,
                c as int,
            );
        }
        let len = self.data.len();
        assert(len == self.height() * self.width() * self.channels());
        let i = (x * self.w + y) * self.ch + c;
        self.data.set(i, value);
    }
}

/// A dense buffer indexed `[row, column]`.
#[derive(Clone, Debug, PartialEq)]
pub struct Array2<T> {
    h: usize,
    w: usize,
    data: Vec<T>,
}

impl<T> Array2<T> {
    /// Number of rows.
    pub closed spec fn height(&self) -> nat {
        self.h as nat
    }

    /// Number of columns.
    pub closed spec fn width(&self) -> nat {
        self.w as nat
    }

    /// The cells in row-major order.
    pub closed spec fn cells(&self) -> Seq<T> {
        self.data@
    }

    /// The storage holds exactly one cell per index.
    pub open spec fn wf(&self) -> bool {
        self.cells().len() == self.height() * self.width()
    }

    /// The cell at `(x, y)`.
    pub open spec fn at(&self, x: int, y: int) -> T {
        self.cells()[offset2(self.width(), x, y)]
    }

    /// Whether `(x, y)` is a cell of the buffer.
    pub open spec fn contains(&self, x: int, y: int) -> bool {
        0 <= x < self.height() && 0 <= y < self.width()
    }

    /// Row `x`, from left to right.
    pub open spec fn row_spec(&self, x: int) -> Seq<T> {
        Seq::new(self.width(), |y: int| self.at(x, y))
    }

    /// Column `y`, from top to bottom.
    pub open spec fn col_spec(&self, y: int) -> Seq<T> {
        Seq::new(self.height(), |x: int| self.at(x, y))
    }

    /// Wraps row-major storage; `None` when its length is not `h * w`.
    pub fn from_shape_vec(h: usize, w: usize, data: Vec<T>) -> (r: Option<Self>)
        ensures
            r.is_some() <==> data@.len() == h * w,
            r.is_some() ==> {
                let a = r.unwrap();
                &&& a.wf()
                &&& a.height() == h
                &&& a.width() == w
                &&& a.cells() == data@
            },
    {
        let len = data.len();
        match h.checked_mul(w) {
            Some(n) => {
                if len == n {
                    Some(Array2 { h, w, data })
                } else {
                    None
                }
            },
            None => None,
        }
    }

    /// The shape `(rows, columns)`.
    pub fn dim(&self) -> (r: (usize, usize))
        ensures
            r.0 == self.height(),
            r.1 == self.width(),
    {
        (self.h, self.w)
    }

    /// Gives up the buffer for its row-major storage.
    pub fn into_raw_vec(self) -> (r: Vec<T>)
        ensures
            r@ == self.cells(),
    {
        self.data
    }

    /// The row-major storage, borrowed.
    pub fn as_raw(&self) -> (r: &Vec<T>)
        ensures
            r@ == self.cells(),
    {
        &self.data
    }
}

impl<T: Copy> Array2<T> {
    /// A buffer of the given shape with every cell equal to `fill`.
    pub fn from_elem(h: usize, w: usize, fill: T) -> (r: Self)
        requires
            h * w <= usize::MAX,
        ensures
            r.wf(),
            r.height() == h,
            r.width() == w,
            forall|i: int| 0 <= i < r.cells().len() ==> r.cells()[i] == fill,
    {
        let n = h * w;
        let mut data: Vec<T> = Vec::new();
        let mut i: usize = 0;
        while i < n
            invariant
                i <= n,
                data@.len() == i,
                forall|k: int| 0 <= k < i ==> data@[k] == fill,
            decreases n - i,
        {
            data.push(fill);
            i += 1;
        }
        Array2 { h, w, data }
    }

    /// A buffer of the given shape whose cell `(x, y)` is what `f` returns
    /// for `(x, y)`; `f` is called once per cell, in row-major order.
    pub fn from_shape_fn<F: Fn(usize, usize) -> T>(h: usize, w: usize, f: F) -> (r: Self)
        requires
            h * w <= usize::MAX,
            forall|x: usize, y: usize| x < h && y < w ==> call_requires(f, (x, y)),
        ensures
            r.wf(),
            r.height() == h,
            r.width() == w,
            forall|x: int, y: int|
                0 <= x < h && 0 <= y < w ==> call_ensures(
                    f,
                    (x as usize, y as usize),
                    #[trigger] r.at(x, y),
                ),
    {
        let ghost wn = w as nat;
        let mut data: Vec<T> = Vec::new();
        let mut x: usize = 0;
        proof {
            assert(offset2(wn, 0, 0) == 0) by (nonlinear_arith);
        }
        while x < h
            invariant
                x <= h,
                wn == w,
                forall|x: usize, y: usize| x < h && y < w ==> call_requires(f, (x, y)),
                data@.len() == offset2(wn, x as int, 0),
                forall|x1: int, y1: int|
                    0 <= x1 < x && 0 <= y1 < w ==> call_ensures(
                        f,
                        (x1 as usize, y1 as usize),
                        #[trigger] data@[offset2(wn, x1, y1)],
                    ),
            decreases h - x,
        {
            let mut y: usize = 0;
            while y < w
                invariant
                    x < h,
                    y <= w,
                    wn == w,
                    forall|x: usize, y: usize| x < h && y < w ==> call_requires(f, (x, y)),
                    data@.len() == offset2(wn, x as int, y as int),
                    forall|x1: int, y1: int|
                        0 <= x1 <= x && 0 <= y1 < w && before2(x1, y1, x as int, y as int)
                            ==> call_ensures(
                            f,
                            (x1 as usize, y1 as usize),
                            #[trigger] data@[offset2(wn, x1, y1)],
                        ),
                decreases w - y,
            {
                let v = f(x, y);
                let ghost before = data@;
                data.push(v);
                proof {
                    assert forall|x1: int, y1: int|
                        0 <= x1 <= x && 0 <= y1 < w && before2(
                            x1,
                            y1,
                            x as int,
                            y as int + 1,
                        ) implies call_ensures(
                        f,
                        (x1 as usize, y1 as usize),
                        #[trigger] data@[offset2(wn, x1, y1)],
                    ) by {
                        lemma_offset2_order(wn, x1, y1, x as int, y as int);
                        if before2(x1, y1, x as int, y as int) {
                            assert(data@[offset2(wn, x1, y1)] == before[offset2(wn, x1, y1)]);
                        }
                    }
                }
                y += 1;
            }
            proof {
                assert(offset2(wn, x as int, w as int) == offset2(wn, x as int + 1, 0))
                    by (nonlinear_arith)
                    requires
                        wn == w,
                ;
            }
            x += 1;
        }
        Array2 { h, w, data }
    }

    /// Copies row `x`.
    pub fn row(&self, x: usize) -> (r: Vec<T>)
        requires
            self.wf(),
            x < self.height(),
        ensures
            r@ == self.row_spec(x as int),
    {
        let mut r: Vec<T> = Vec::new();
        let mut y: usize = 0;
        while y < self.w
            invariant
                self.wf(),
                x < self.height(),
                y <= self.w,
                r@.len() == y,
                forall|k: int| 0 <= k < y ==> r@[k] == self.at(x as int, k),
            decreases self.w - y,
        {
            r.push(self.get(x, y));
            y += 1;
        }
        proof {
            assert(r@ =~= self.row_spec(x as int));
        }
        r
    }

    /// Copies column `y`.
    pub fn col(&self, y: usize) -> (r: Vec<T>)
        requires
            self.wf(),
            y < self.width(),
        ensures
            r@ == self.col_spec(y as int),
    {
        let mut r: Vec<T> = Vec::new();
        let mut x: usize = 0;
        while x < self.h
            invariant
                self.wf(),
                y < self.width(),
                x <= self.h,
                r@.len() == x,
                forall|k: int| 0 <= k < x ==> r@[k] == self.at(k, y as int),
            decreases self.h - x,
        {
            r.push(self.get(x, y));
            x += 1;
        }
        proof {
            assert(r@ =~= self.col_spec(y as int));
        }
        r
    }

    /// Overwrites row `x` with `row`; every other row stays.
    pub fn set_row(&mut self, x: usize, row: &Vec<T>)
        requires
            old(self).wf(),
            x < old(self).height(),
            row@.len() == old(self).width(),
        ensures
            final(self).wf(),
            final(self).height() == old(self).height(),
            final(self).width() == old(self).width(),
            final(self).row_spec(x as int) == row@,
            forall|x1: int, y1: int|
                old(self).contains(x1, y1) && x1 != x ==> final(self).at(x1, y1) == old(self).at(
                    x1,
                    y1,
                ),
    {
        let ghost before = *self;
        let mut y: usize = 0;
        while y < self.w
            invariant
                self.wf(),
                before.wf(),
                self.height() == before.height(),
                self.width() == before.width(),
                x < self.height(),
                row@.len() == self.width(),
                y <= self.w,
                forall|k: int| 0 <= k < y ==> self.at(x as int, k) == row@[k],
                forall|x1: int, y1: int|
                    before.contains(x1, y1) && x1 != x ==> self.at(x1, y1) == before.at(x1, y1),
            decreases self.w - y,
        {
            let ghost prev = *self;
            self.set(x, y, row[y]);
            proof {
                let wn = self.width();
                assert forall|k: int| 0 <= k < y + 1 implies self.at(x as int, k) == row@[k] by {
                    lemma_offset2_order(wn, x as int, k, x as int, y as int);
                    lemma_offset2_bound(self.height(), wn, x as int, k);
                    lemma_offset2_bound(self.height(), wn, x as int, y as int);
                    if k < y {
                        assert(self.at(x as int, k) == prev.at(x as int, k));
                    }
                }
                assert forall|x1: int, y1: int| before.contains(x1, y1) && x1 != x implies self.at(
                    x1,
                    y1,
                ) == before.at(x1, y1) by {
                    lemma_offset2_order(wn, x1, y1, x as int, y as int);
                    lemma_offset2_bound(self.height(), wn, x1, y1);
                    lemma_offset2_bound(self.height(), wn, x as int, y as int);
                    assert(self.at(x1, y1) == prev.at(x1, y1));
                }
            }
            y += 1;
        }
        proof {
            assert(self.row_spec(x as int) =~= row@);
        }
    }

    /// Overwrites column `y` with `col`; every other column stays.
    pub fn set_col(&mut self, y: usize, col: &Vec<T>)
        requires
            old(self).wf(),
            y < old(self).width(),
            col@.len() == old(self).height(),
        ensures
            final(self).wf(),
            final(self).height() == old(self).height(),
            final(self).width() == old(self).width(),
            final(self).col_spec(y as int) == col@,
            forall|x1: int, y1: int|
                old(self).contains(x1, y1) && y1 != y ==> final(self).at(x1, y1) == old(self).at(
                    x1,
                    y1,
                ),
    {
        let ghost before = *self;
        let mut x: usize = 0;
        while x < self.h
            invariant
                self.wf(),
                before.wf(),
                self.height() == before.height(),
                self.width() == before.width(),
                y < self.width(),
                col@.len() == self.height(),
                x <= self.h,
                forall|k: int| 0 <= k < x ==> self.at(k, y as int) == col@[k],
                forall|x1: int, y1: int|
                    before.contains(x1, y1) && y1 != y ==> self.at(x1, y1) == before.at(x1, y1),
            decreases self.h - x,
        {
            let ghost prev = *self;
            self.set(x, y, col[x]);
            proof {
                let wn = self.width();
                assert forall|k: int| 0 <= k < x + 1 implies self.at(k, y as int) == col@[k] by {
                    lemma_offset2_order(wn, k, y as int, x as int, y as int);
                    lemma_offset2_bound(self.height(), wn, k, y as int);
                    lemma_offset2_bound(self.height(), wn, x as int, y as int);
                    if k < x {
                        assert(self.at(k, y as int) == prev.at(k, y as int));
                    }
                }
                assert forall|x1: int, y1: int| before.contains(x1, y1) && y1 != y implies self.at(
                    x1,
                    y1,
                ) == before.at(x1, y1) by {
                    lemma_offset2_order(wn, x1, y1, x as int, y as int);
                    lemma_offset2_bound(self.height(), wn, x1, y1);
                    lemma_offset2_bound(self.height(), wn, x as int, y as int);
                    assert(self.at(x1, y1) == prev.at(x1, y1));
                }
            }
            x += 1;
        }
        proof {
            assert(self.col_spec(y as int) =~= col@);
        }
    }

    /// Reads the cell at `(x, y)`.
    pub fn get(&self, x: usize, y: usize) -> (r: T)
        requires
            self.wf(),
            self.contains(x as int, y as int),
        ensures
            r == self.at(x as int, y as int),
    {
        proof {
            lemma_offset2_bound(self.height(), self.width(), x as int, y as int);
            assert(0 <= x * self.width()) by (nonlinear_arith);
        }
        let len = self.data.len();
        assert(len == self.height() * self.width());
        self.data[x * self.w + y]
    }

    /// Overwrites the cell at `(x, y)`.
    pub fn set(&mut self, x: usize, y: usize, value: T)
        requires
            old(self).wf(),
            old(self).contains(x as int, y as int),
        ensures
            final(self).wf(),
            final(self).height() == old(self).height(),
            final(self).width() == old(self).width(),
            final(self).cells() == old(self).cells().update(
                offset2(old(self).width(), x as int, y as int),
                value,
            ),
    {
        proof {
            lemma_offset2_bound(self.height(), self.width(), x as int, y as int);
            assert(0 <= x * self.width()) by (nonlinear_arith);
        }
        let len = self.data.len();
        assert(len == self.height() * self.width());
        let i = x * self.w + y;
        self.data.set(i, value);
    }
}

/// Where a three-fold product fits the machine word, so do its partial
/// products, unless a factor is zero.
pub proof fn lemma_product_fits(h: nat, w: nat, ch: nat)
    requires
        h * w * ch <= usize::MAX,
    ensures
        h > 0 && w > 0 && ch > 0 ==> h * w <= usize::MAX,
        h == 0 || w == 0 || ch == 0 ==> h * w * ch == 0,
{
    assert(h > 0 && w > 0 && ch > 0 ==> h * w <= h * w * ch) by (nonlinear_arith);
    assert(h == 0 || w == 0 || ch == 0 ==> h * w * ch == 0) by (nonlinear_arith);
}

} // verus!
