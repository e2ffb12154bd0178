//! Additive noise: every sample of a normal image is perturbed on its own.

use crate::array::Array3;
use crate::error::{Error, ImageKind};
use crate::image::{may_map, Image};
use vstd::prelude::*;

verus! {

/// The processor of additive noise.
#[derive(Clone, Copy, Debug)]
pub struct Noise;

impl Noise {
    /// Whether `dest` may be `src` with every cell passed through
    /// `perturb`.
    pub open spec fn perturbed<T, F: Fn(T) -> T>(
        perturb: &F,
        src: &Array3<T>,
        dest: &Array3<T>,
    ) -> bool {
        &&& dest.wf()
        &&& dest.height() == src.height()
        &&& dest.width() == src.width()
        &&& dest.channels() == src.channels()
        &&& forall|x: int, y: int, c: int|
            src.contains(x, y, c) ==> call_ensures(
                *perturb,
                (src.at(x, y, c),),
                #[trigger] dest.at(x, y, c),
            )
    }

    /// Perturbs every sample of a normal image, each by one call of
    /// `perturb` on the sample alone; nothing is clamped. A complex image
    /// is refused.
    pub fn run<T: Copy, C, F: Fn(T) -> T>(&self, src: Image<T, C>, perturb: &F) -> (out: Result<
        Image<T, C>,
        Error,
    >)
        requires
            src.wf(),
            forall|v: T| call_requires(*perturb, (v,)),
        ensures
            match (src, out) {
                (Image::Normal(a), Ok(Image::Normal(d))) => Self::perturbed(perturb, &a, &d),
                (Image::Complex(_), Err(e)) => e == Error::WrongVariant {
                    expected: ImageKind::Normal,
                    found: ImageKind::Complex,
                },
                _ => false,
            },
    {
        let mat = match src {
            Image::Normal(mat) => mat,
            Image::Complex(_) => {
                return Err(
                    Error::WrongVariant { expected: ImageKind::Normal, found: ImageKind::Complex },
                );
            },
        };
        let (h, w, ch) = mat.dim();
        let len = mat.as_raw().len();
        let cell = |x: usize, y: usize, c: usize| -> (v: T)
            requires
                x < h,
                y < w,
                c < ch,
            ensures
                may_map(perturb, mat.at(x as int, y as int, c as int), v),
            { perturb(mat.get(x, y, c)) };
        let dest = Array3::from_shape_fn(h, w, ch, cell);
        proof {
            assert forall|x: int, y: int, c: int| mat.contains(x, y, c) implies call_ensures(
                *perturb,
                (mat.at(x, y, c),),
                #[trigger] dest.at(x, y, c),
            ) by {
                assert(call_ensures(cell, (x as usize, y as usize, c as usize), dest.at(x, y, c)));
            }
        }
        Ok(Image::Normal(dest))
    }
}

} // verus!
