use img_process::array::{Array2, Array3};
use img_process::error::{Error, ImageKind, ParameterFault};
use img_process::filter::{
    bilateral_filter, box_filter_kernel, gather_window, gauss_filter_kernel, linear_filter,
    spatial_distances, wiener_filter, Filter,
};
use img_process::image::Image;

type Img = Image<f32, (f32, f32)>;

fn dot(window: &Vec<f32>, kernel: &Vec<f32>) -> f32 {
    window.iter().zip(kernel.iter()).map(|(a, b)| a * b).sum()
}

fn reciprocal(n: usize) -> f32 {
    1.0 / n as f32
}

fn total(cells: &Vec<f32>) -> f32 {
    cells.iter().sum()
}

fn divide(a: f32, b: f32) -> f32 {
    a / b
}

fn bell(sigma: f32) -> impl Fn(usize, usize, usize) -> f32 {
    move |x, y, mid| {
        let (x, y, mid) = (x as f32, y as f32, mid as f32);
        ((-(x - mid).powi(2) - (y - mid).powi(2)) / sigma.powi(2)).exp()
    }
}

fn measure(window: &Vec<f32>) -> (f32, f32) {
    let n = window.len() as f32;
    let mean = window.iter().sum::<f32>() / n;
    let dev = window.iter().map(|v| (v - mean) * (v - mean)).sum::<f32>() / n;
    (mean, dev)
}

fn estimate(stats: &Vec<(f32, f32)>) -> f32 {
    stats.iter().map(|s| s.1).sum::<f32>() / stats.len() as f32
}

fn shrink(stat: (f32, f32), floor: &f32, center: f32) -> f32 {
    let (mean, dev) = stat;
    mean + (dev - floor).max(0.0) / dev.max(*floor) * (center - mean)
}

fn ramp(h: usize, w: usize) -> Array3<f32> {
    let data = (0..h * w * 3).map(|i| i as f32).collect();
    Array3::from_shape_vec(h, w, 3, data).unwrap()
}

#[test]
fn window_is_read_row_by_row_within_one_channel() {
    let src = ramp(4, 5);
    // Cell (x, y, c) holds (x * 5 + y) * 3 + c.
    let win = gather_window(&src, 1, 2, 1, 3);
    assert_eq!(win, vec![22.0, 25.0, 28.0, 37.0, 40.0, 43.0, 52.0, 55.0, 58.0]);
}

#[test]
fn linear_filter_output_shrinks_by_kernel_size_minus_one() {
    for (h, w, k) in [(5, 7, 1), (5, 7, 3), (5, 7, 5), (9, 9, 9), (6, 4, 3)] {
        let src = Array3::from_elem(h, w, 3, 1.0f32);
        let kernel = box_filter_kernel(k, &reciprocal);
        let dest = linear_filter(&src, &kernel, &dot);
        assert_eq!(dest.dim(), (h - k + 1, w - k + 1, 3));
    }
}

#[test]
fn box_kernel_is_uniform() {
    let kernel = box_filter_kernel(3, &reciprocal);
    assert_eq!(kernel.dim(), (3, 3));
    assert_eq!(kernel.into_raw_vec(), vec![1.0 / 9.0; 9]);
}

#[test]
fn box_filter_averages_the_window() {
    let src = ramp(3, 3);
    let kernel = box_filter_kernel(3, &reciprocal);
    let dest = linear_filter(&src, &kernel, &dot);
    assert_eq!(dest.dim(), (1, 1, 3));
    // The mean of a ramp over a centred window is its central cell.
    for c in 0..3 {
        assert!((dest.get(0, 0, c) - src.get(1, 1, c)).abs() < 1e-4);
    }
}

#[test]
fn kernel_of_size_one_copies_the_image() {
    let src = ramp(2, 3);
    let kernel = Array2::from_elem(1, 1, 1.0f32);
    let dest = linear_filter(&src, &kernel, &dot);
    assert_eq!(dest.dim(), (2, 3, 3));
    assert_eq!(dest.into_raw_vec(), ramp(2, 3).into_raw_vec());
}

#[test]
fn gauss_kernel_sums_to_one() {
    for k in [1usize, 3, 5, 7, 11] {
        for sigma in [0.3f32, 1.0, 2.5, 10.0] {
            let kernel = gauss_filter_kernel(k, &bell(sigma), &total, &divide);
            assert_eq!(kernel.dim(), (k, k));
            let sum: f32 = kernel.into_raw_vec().iter().sum();
            assert!((sum - 1.0).abs() < 1e-5, "size {} sigma {}: {}", k, sigma, sum);
        }
    }
}

#[test]
fn gauss_kernel_peaks_in_the_middle() {
    let kernel = gauss_filter_kernel(3, &bell(1.0), &total, &divide);
    // exp(-d2) for d2 = 0, 1, 2, normalized by their sum over the window.
    let e1 = (-1.0f32).exp();
    let e2 = (-2.0f32).exp();
    let sum = 1.0 + 4.0 * e1 + 4.0 * e2;
    assert!((kernel.get(1, 1) - 1.0 / sum).abs() < 1e-6);
    assert!((kernel.get(0, 1) - e1 / sum).abs() < 1e-6);
    assert!((kernel.get(0, 0) - e2 / sum).abs() < 1e-6);
    assert!((kernel.get(2, 2) - e2 / sum).abs() < 1e-6);
}

#[test]
fn wiener_filter_leaves_a_flat_image_flat() {
    let src = Array3::from_elem(5, 6, 3, 0.25f32);
    let dest = wiener_filter(&src, 3, &measure, &estimate, &|s, f, c| {
        // Zero variance everywhere: the quotient is 0 / 0, which the mean stands in for.
        let v = shrink(s, f, c);
        if v.is_nan() { s.0 } else { v }
    });
    assert_eq!(dest.dim(), (3, 4, 3));
    assert!(dest.into_raw_vec().iter().all(|v| (v - 0.25).abs() < 1e-6));
}

#[test]
fn wiener_filter_shrinks_towards_the_local_mean() {
    // One bright pixel in the middle of channel 0.
    let mut src = Array3::from_elem(3, 5, 3, 0.0f32);
    src.set(1, 1, 0, 0.9);
    let dest = wiener_filter(&src, 3, &measure, &estimate, &|s, f, c| {
        let v = shrink(s, f, c);
        if v.is_nan() { s.0 } else { v }
    });
    assert_eq!(dest.dim(), (1, 3, 3));
    // Window at column 0 holds the bright pixel at its centre.
    let mean = 0.9f32 / 9.0;
    let dev = (8.0 * mean * mean + (0.9 - mean) * (0.9 - mean)) / 9.0;
    // Local variances of channel 0: dev, dev, 0; all others 0.
    let floor = 2.0 * dev / 9.0;
    let expect = mean + (dev - floor) / dev * (0.9 - mean);
    assert!((dest.get(0, 0, 0) - expect).abs() < 1e-5);
    // Window at column 1 has the bright pixel off centre: the centre is dark.
    let expect = mean + (dev - floor) / dev * (0.0 - mean);
    assert!((dest.get(0, 1, 0) - expect).abs() < 1e-5);
}

#[test]
fn bilateral_filter_gets_window_and_centre() {
    let src = ramp(3, 4);
    let dest = bilateral_filter(&src, 3, &|win: &Vec<f32>, centre: f32| {
        assert_eq!(win.len(), 9);
        assert_eq!(win[4], centre);
        centre
    });
    assert_eq!(dest.dim(), (1, 2, 3));
    assert_eq!(dest.get(0, 0, 0), src.get(1, 1, 0));
    assert_eq!(dest.get(0, 1, 2), src.get(1, 2, 2));
}

#[test]
fn spatial_distances_are_squared_and_centred() {
    assert_eq!(spatial_distances(0), Vec::<usize>::new());
    assert_eq!(spatial_distances(1), vec![0]);
    assert_eq!(spatial_distances(3), vec![2, 1, 2, 1, 0, 1, 2, 1, 2]);
    // An even window has its centre at the upper of the two middle cells.
    assert_eq!(spatial_distances(2), vec![2, 1, 1, 0]);
    let d = spatial_distances(5);
    assert_eq!(d.len(), 25);
    assert_eq!(d[0], 8);
    assert_eq!(d[12], 0);
    assert_eq!(d[14], 4);
    assert_eq!(d[23], 5);
}

#[test]
fn bilateral_filter_preserves_an_edge() {
    // Left half dark, right half bright; a narrow range keeps the halves apart.
    let src = Array3::from_shape_fn(3, 6, 3, |_x, y, _c| if y < 3 { 0.0f32 } else { 1.0 });
    let (sigma_d, sigma_r) = (2.0f32, 0.1f32);
    let distances = spatial_distances(3);
    let dest = bilateral_filter(&src, 3, &|win: &Vec<f32>, centre: f32| {
        let (mut sum, mut wsum) = (0.0, 0.0);
        for (v, d) in win.iter().zip(&distances) {
            let dd = *d as f32 / (2.0 * sigma_d * sigma_d);
            let dr = (v - centre).abs().powi(2) / (2.0 * sigma_r * sigma_r);
            let w = (-dd - dr).exp();
            wsum += w;
            sum += v * w;
        }
        sum / wsum
    });
    assert_eq!(dest.dim(), (1, 4, 3));
    assert!(dest.get(0, 1, 0) < 1e-3);
    assert!(dest.get(0, 2, 0) > 1.0 - 1e-3);
}

#[test]
fn filter_run_refuses_an_even_kernel() {
    let img: Img = Image::Normal(Array3::from_elem(4, 4, 3, 0.0));
    match Filter.run(2, img, |_a| panic!("the kernel ran")) {
        Err(e) => {
            assert_eq!(e, Error::InvalidParameter(ParameterFault::EvenKernel));
            assert_eq!(e.message(), "Kernel size should be odd number");
        }
        Ok(_) => panic!("an even kernel was accepted"),
    }
}

#[test]
fn filter_run_refuses_a_kernel_larger_than_the_image() {
    let img: Img = Image::Normal(Array3::from_elem(4, 6, 3, 0.0));
    match Filter.run(5, img, |_a| panic!("the kernel ran")) {
        Err(e) => {
            assert_eq!(e, Error::InvalidParameter(ParameterFault::KernelTooLarge));
            assert_eq!(e.message(), "Kernel should not be larger than image");
        }
        Ok(_) => panic!("a kernel larger than the image was accepted"),
    }
}

#[test]
fn filter_run_checks_oddness_before_size() {
    let img: Img = Image::Normal(Array3::from_elem(2, 2, 3, 0.0));
    match Filter.run(4, img, |_a| panic!("the kernel ran")) {
        Err(e) => assert_eq!(e, Error::InvalidParameter(ParameterFault::EvenKernel)),
        Ok(_) => panic!("an even kernel was accepted"),
    }
}

#[test]
fn filter_run_refuses_a_complex_image() {
    let img: Img = Image::Complex(Array2::from_elem(4, 4, (0.0, 0.0)));
    match Filter.run(3, img, |_a| panic!("the kernel ran")) {
        Err(e) => assert_eq!(
            e,
            Error::WrongVariant { expected: ImageKind::Normal, found: ImageKind::Complex }
        ),
        Ok(_) => panic!("a complex image was filtered"),
    }
}

#[test]
fn filter_run_hands_the_buffer_to_the_kernel() {
    let img: Img = Image::Normal(ramp(3, 3));
    let out = Filter.run(3, img, |a| {
        let kernel = box_filter_kernel(3, &reciprocal);
        Ok(linear_filter(&a, &kernel, &dot))
    });
    let mat = out.ok().unwrap().expect_normal().unwrap();
    assert_eq!(mat.dim(), (1, 1, 3));
    assert!((mat.get(0, 0, 1) - 13.0).abs() < 1e-4);
}

#[test]
fn filter_run_accepts_a_kernel_as_large_as_the_image() {
    let img: Img = Image::Normal(ramp(3, 5));
    let out = Filter.run(3, img, |a| Ok(a));
    assert!(out.is_ok());
}

#[test]
fn filter_run_passes_a_failure_of_the_kernel_on() {
    let img: Img = Image::Normal(ramp(3, 3));
    match Filter.run(3, img, |_a| Err(Error::AcceleratorError("No OpenCL device".to_string()))) {
        Err(e) => {
            assert_eq!(e, Error::AcceleratorError("No OpenCL device".to_string()));
            assert_eq!(e.message(), "No OpenCL device");
        }
        Ok(_) => panic!("a failed kernel gave an image"),
    }
}
