use img_process::array::{Array2, Array3};
use img_process::dft::{transform_cols, transform_rows, DFT};
use img_process::error::{Error, ImageKind};
use img_process::fft::FFT;
use img_process::image::Image;

type C = (f32, f32);
type Img = Image<f32, C>;

fn butterfly(u: C, v: C, k: usize, n: usize, inverse: bool) -> (C, C) {
    let theta = 2.0 * std::f32::consts::PI * k as f32 / n as f32;
    let (s, c) = theta.sin_cos();
    let w = if inverse { (c, -s) } else { (c, s) };
    let v = (v.0 * w.0 - v.1 * w.1, v.0 * w.1 + v.1 * w.0);
    ((u.0 + v.0, u.1 + v.1), (u.0 - v.0, u.1 - v.1))
}

fn scale(x: C, n: usize) -> C {
    let k = (1.0 / n as f32).sqrt();
    (x.0 * k, x.1 * k)
}

fn luma(r: f32, g: f32, b: f32, flip: bool) -> C {
    let gray = 0.299 * r + 0.587 * g + 0.114 * b;
    (if flip { -gray } else { gray }, 0.0)
}

fn magnitude(z: C) -> f32 {
    (z.0 * z.0 + z.1 * z.1).sqrt()
}

fn picture(h: usize, w: usize) -> Array3<f32> {
    Array3::from_shape_fn(h, w, 3, |x, y, c| ((x * 7 + y * 3 + c * 11) % 16) as f32 / 16.0)
}

#[test]
fn forward_gives_a_complex_image_of_padded_size() {
    let img: Img = Image::Normal(picture(5, 3));
    let out = DFT.run(false, img, (0.0, 0.0), &luma, &magnitude, &butterfly, &scale).ok().unwrap();
    assert_eq!(out.kind(), ImageKind::Complex);
    assert_eq!(out.expect_complex().unwrap().dim(), (8, 4));
}

#[test]
fn zero_frequency_lands_in_the_centre() {
    // A flat image has all its energy at frequency zero.
    let img: Img = Image::Normal(Array3::from_elem(4, 4, 3, 1.0));
    let out = DFT.run(false, img, (0.0, 0.0), &luma, &magnitude, &butterfly, &scale).ok().unwrap();
    let spectrum = out.expect_complex().unwrap();
    for x in 0..4 {
        for y in 0..4 {
            let m = magnitude(spectrum.get(x, y));
            if (x, y) == (2, 2) {
                // Sixteen cells of one, scaled by 1/2 per pass.
                assert!((m - 4.0).abs() < 1e-4);
            } else {
                assert!(m < 1e-4);
            }
        }
    }
}

#[test]
fn inverse_of_forward_reconstructs_the_luminance() {
    let rgb = picture(8, 4);
    let img: Img = Image::Normal(picture(8, 4));
    let spectrum =
        DFT.run(false, img, (0.0, 0.0), &luma, &magnitude, &butterfly, &scale).ok().unwrap();
    let back = DFT.run(true, spectrum, (0.0, 0.0), &luma, &magnitude, &butterfly, &scale).ok().unwrap();
    let gray = back.expect_normal().unwrap();
    assert_eq!(gray.dim(), (8, 4, 3));
    for x in 0..8 {
        for y in 0..4 {
            let expect = 0.299 * rgb.get(x, y, 0) + 0.587 * rgb.get(x, y, 1) + 0.114 * rgb.get(x, y, 2);
            for c in 0..3 {
                assert!((gray.get(x, y, c) - expect).abs() < 1e-4);
            }
        }
    }
}

#[test]
fn forward_refuses_a_complex_image() {
    let img: Img = Image::Complex(Array2::from_elem(2, 2, (0.0, 0.0)));
    match DFT.run(false, img, (0.0, 0.0), &luma, &magnitude, &butterfly, &scale) {
        Err(e) => assert_eq!(
            e,
            Error::WrongVariant { expected: ImageKind::Normal, found: ImageKind::Complex }
        ),
        Ok(_) => panic!("a complex image was transformed forward"),
    }
}

#[test]
fn inverse_refuses_a_normal_image() {
    let img: Img = Image::Normal(picture(2, 2));
    match DFT.run(true, img, (0.0, 0.0), &luma, &magnitude, &butterfly, &scale) {
        Err(e) => assert_eq!(
            e,
            Error::WrongVariant { expected: ImageKind::Complex, found: ImageKind::Normal }
        ),
        Ok(_) => panic!("a normal image was transformed back"),
    }
}

#[test]
fn rows_and_columns_are_transformed_on_their_own() {
    // Cells carried through unchanged: only the bit-reversed order shows.
    let carry = |u: u32, v: u32, _k: usize, _n: usize, _inv: bool| (u, v);
    let keep = |x: u32, _n: usize| x;
    let mut mat = Array2::from_shape_vec(2, 4, (0..8).collect()).unwrap();
    transform_rows(&mut mat, &FFT::init(4), false, &carry, &keep);
    assert_eq!(mat.as_raw(), &vec![0, 2, 1, 3, 4, 6, 5, 7]);
    let mut mat = Array2::from_shape_vec(4, 2, (0..8).collect()).unwrap();
    transform_cols(&mut mat, &FFT::init(4), false, &carry, &keep);
    assert_eq!(mat.as_raw(), &vec![0, 1, 4, 5, 2, 3, 6, 7]);
}
