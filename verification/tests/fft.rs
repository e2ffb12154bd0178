use img_process::array::Array2;
use img_process::dft::fft_2d;
use img_process::fft::FFT;

type C = (f32, f32);

fn root(k: usize, n: usize, inverse: bool) -> C {
    let theta = 2.0 * std::f32::consts::PI * k as f32 / n as f32;
    let (s, c) = theta.sin_cos();
    if inverse {
        (c, -s)
    } else {
        (c, s)
    }
}

fn butterfly(u: C, v: C, k: usize, n: usize, inverse: bool) -> (C, C) {
    let w = root(k, n, inverse);
    let v = (v.0 * w.0 - v.1 * w.1, v.0 * w.1 + v.1 * w.0);
    ((u.0 + v.0, u.1 + v.1), (u.0 - v.0, u.1 - v.1))
}

fn scale(x: C, n: usize) -> C {
    let k = (1.0 / n as f32).sqrt();
    (x.0 * k, x.1 * k)
}

#[test]
fn fft_size_of_rounds_up_to_a_power_of_two() {
    assert_eq!(FFT::fft_size_of(0), 1);
    assert_eq!(FFT::fft_size_of(1), 1);
    assert_eq!(FFT::fft_size_of(2), 2);
    assert_eq!(FFT::fft_size_of(3), 4);
    assert_eq!(FFT::fft_size_of(4), 4);
    assert_eq!(FFT::fft_size_of(5), 8);
    assert_eq!(FFT::fft_size_of(1000), 1024);
}

#[test]
fn bit_reversal_table_of_eight() {
    let plan = FFT::init(8);
    let table: Vec<usize> = (0..8).map(|i| plan.reversed(i)).collect();
    assert_eq!(table, vec![0, 4, 2, 6, 1, 5, 3, 7]);
    assert_eq!(plan.len(), 8);
}

#[test]
fn bit_reversal_table_of_one() {
    let plan = FFT::init(1);
    assert_eq!(plan.len(), 1);
    assert_eq!(plan.reversed(0), 0);
}

#[test]
fn bit_reversal_is_an_involution() {
    let plan = FFT::init(64);
    for i in 0..64 {
        assert_eq!(plan.reversed(plan.reversed(i)), i);
    }
}

#[test]
fn butterflies_come_in_the_planned_order() {
    let plan = FFT::init(8);
    let mut cells: Vec<u32> = (0..8).collect();
    let log = std::cell::RefCell::new(Vec::new());
    // Cells are carried through unchanged so that each call shows positions.
    let op = |u: u32, v: u32, k: usize, n: usize, inverse: bool| {
        log.borrow_mut().push((u, v, k, n, inverse));
        (u, v)
    };
    plan.fft(&mut cells, false, &op, &|x: u32, _n: usize| x);
    assert_eq!(cells, vec![0, 4, 2, 6, 1, 5, 3, 7]);
    let log = log.into_inner();
    assert_eq!(log.len(), 12);
    // Stage of span 1: neighbours, twiddle 0.
    assert_eq!(log[0], (0, 4, 0, 8, false));
    assert_eq!(log[1], (2, 6, 0, 8, false));
    assert_eq!(log[3], (3, 7, 0, 8, false));
    // Stage of span 2: twiddles 0 and 2.
    assert_eq!(log[4], (0, 2, 0, 8, false));
    assert_eq!(log[5], (4, 6, 2, 8, false));
    assert_eq!(log[6], (1, 3, 0, 8, false));
    // Stage of span 4: twiddles 0, 1, 2, 3.
    assert_eq!(log[8], (0, 1, 0, 8, false));
    assert_eq!(log[9], (4, 5, 1, 8, false));
    assert_eq!(log[10], (2, 3, 2, 8, false));
    assert_eq!(log[11], (6, 7, 3, 8, false));
}

#[test]
fn transform_of_an_impulse_is_flat() {
    let plan = FFT::init(4);
    let mut cells: Vec<C> = vec![(1.0, 0.0), (0.0, 0.0), (0.0, 0.0), (0.0, 0.0)];
    plan.fft(&mut cells, false, &butterfly, &scale);
    for c in cells {
        assert!((c.0 - 0.5).abs() < 1e-6);
        assert!(c.1.abs() < 1e-6);
    }
}

#[test]
fn forward_then_inverse_gives_the_cells_back() {
    let plan = FFT::init(16);
    let given: Vec<C> = (0..16).map(|i| ((i * i % 7) as f32, (i % 3) as f32)).collect();
    let mut cells = given.clone();
    plan.fft(&mut cells, false, &butterfly, &scale);
    plan.fft(&mut cells, true, &butterfly, &scale);
    for (a, b) in cells.iter().zip(given.iter()) {
        assert!((a.0 - b.0).abs() < 1e-4);
        assert!((a.1 - b.1).abs() < 1e-4);
    }
}

#[test]
fn fft_2d_pads_to_powers_of_two() {
    let src = Array2::from_shape_vec(3, 5, vec![(1.0f32, 0.0f32); 15]).unwrap();
    let out = fft_2d(src, false, (0.0, 0.0), &butterfly, &scale);
    assert_eq!(out.dim(), (4, 8));
}

#[test]
fn fft_2d_round_trip_reconstructs_the_plane() {
    let h = 4;
    let w = 8;
    let data: Vec<C> = (0..h * w).map(|i| (((i * 5) % 11) as f32 / 11.0, 0.0)).collect();
    let src = Array2::from_shape_vec(h, w, data.clone()).unwrap();
    let spectrum = fft_2d(src, false, (0.0, 0.0), &butterfly, &scale);
    let back = fft_2d(spectrum, true, (0.0, 0.0), &butterfly, &scale);
    assert_eq!(back.dim(), (h, w));
    for (a, b) in back.into_raw_vec().iter().zip(data.iter()) {
        assert!((a.0 - b.0).abs() < 1e-4);
        assert!((a.1 - b.1).abs() < 1e-4);
    }
}

#[test]
fn a_transform_of_one_point_only_scales() {
    let plan = FFT::init(1);
    let mut cells: Vec<u32> = vec![5];
    let op = |_u: u32, _v: u32, _k: usize, _n: usize, _inv: bool| -> (u32, u32) {
        panic!("a butterfly on one point")
    };
    plan.fft(&mut cells, false, &op, &|x: u32, n: usize| x + n as u32);
    assert_eq!(cells, vec![6]);
}

#[test]
fn a_transform_of_two_points_is_one_butterfly() {
    let plan = FFT::init(2);
    let mut cells: Vec<i32> = vec![7, 3];
    let op = |u: i32, v: i32, k: usize, n: usize, inverse: bool| {
        assert_eq!((k, n, inverse), (0, 2, true));
        (u + v, u - v)
    };
    plan.fft(&mut cells, true, &op, &|x: i32, _n: usize| x);
    assert_eq!(cells, vec![10, 4]);
}

#[test]
fn every_stage_touches_every_cell_once() {
    let plan = FFT::init(16);
    // Each cell counts how often it was touched.
    let mut cells: Vec<u32> = vec![0; 16];
    plan.fft(&mut cells, false, &|u: u32, v: u32, _k: usize, _n: usize, _inv: bool| (u + 1, v + 1), &|x: u32, _n: usize| x);
    assert_eq!(cells, vec![4; 16]);
}
