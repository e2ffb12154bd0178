use img_process::affine_transform::AffineTransform;
use img_process::array::Array3;
use img_process::dft::DFT;
use img_process::filter::{Filter, FilterType};
use img_process::image::Image;
use img_process::noise::Noise;
use img_process::processor::{
    is_claimed, load_processors, own_handler, resolve_handler, same, Args, Handler,
    ImageProcessor, LinearTransform, Processor, Trigger,
};

#[test]
fn same_compares_characters() {
    assert!(same("on_dft_dft", "on_dft_dft"));
    assert!(!same("on_dft_dft", "on_dft_idft"));
    assert!(!same("", "x"));
    assert!(same("", ""));
}

#[test]
fn processors_load_in_the_order_they_are_asked() {
    assert_eq!(
        load_processors(),
        vec![Processor::AffineTransform, Processor::DFT, Processor::Noise, Processor::Filter]
    );
}

#[test]
fn each_processor_claims_its_own_events() {
    assert_eq!(AffineTransform.register_handler("on_affine_trans_reset"), Some(Trigger::AffineTransReset));
    assert_eq!(AffineTransform.register_handler("on_affine_trans_run"), Some(Trigger::AffineTransRun));
    assert_eq!(DFT.register_handler("on_dft_dft"), Some(Trigger::Dft { inverse: false }));
    assert_eq!(DFT.register_handler("on_dft_idft"), Some(Trigger::Dft { inverse: true }));
    assert_eq!(Noise.register_handler("on_noise_gauss_reset"), Some(Trigger::NoiseGaussReset));
    assert_eq!(Noise.register_handler("on_noise_gauss_run"), Some(Trigger::NoiseGaussRun));
    assert_eq!(Filter.register_handler("on_filter_run_box"), Some(Trigger::FilterRun(FilterType::Box)));
    assert_eq!(Filter.register_handler("on_filter_run_gauss"), Some(Trigger::FilterRun(FilterType::Gaussian)));
    assert_eq!(
        Filter.register_handler("on_filter_run_gauss_ocl"),
        Some(Trigger::FilterRun(FilterType::GaussianCL))
    );
    assert_eq!(Filter.register_handler("on_filter_run_wiener"), Some(Trigger::FilterRun(FilterType::Wiener)));
    assert_eq!(
        Filter.register_handler("on_filter_run_bilateral"),
        Some(Trigger::FilterRun(FilterType::Bilateral))
    );
    assert_eq!(LinearTransform.register_handler("on_linear_trans_reset"), Some(Trigger::LinearTransReset));
    assert_eq!(LinearTransform.register_handler("on_linear_trans_run"), Some(Trigger::LinearTransRun));
}

#[test]
fn a_processor_declines_what_is_not_its_own() {
    assert_eq!(AffineTransform.register_handler("on_dft_dft"), None);
    assert_eq!(DFT.register_handler("on_affine_trans_run"), None);
    assert_eq!(Noise.register_handler("on_noise_gauss"), None);
    assert_eq!(Filter.register_handler("on_filter_run"), None);
    assert_eq!(Filter.register_handler(""), None);
    assert_eq!(LinearTransform.register_handler("on_affine_trans_run"), None);
}

#[test]
fn every_claimed_event_has_exactly_one_claimant_among_the_loaded() {
    let names = [
        "on_affine_trans_reset",
        "on_affine_trans_run",
        "on_dft_dft",
        "on_dft_idft",
        "on_noise_gauss_reset",
        "on_noise_gauss_run",
        "on_filter_run_box",
        "on_filter_run_gauss",
        "on_filter_run_gauss_ocl",
        "on_filter_run_wiener",
        "on_filter_run_bilateral",
    ];
    let processors = load_processors();
    for name in names {
        let claimants = processors.iter().filter(|p| p.register_handler(name).is_some()).count();
        assert_eq!(claimants, 1, "{}", name);
    }
}

#[test]
fn the_host_resolves_its_own_events_first() {
    let processors = load_processors();
    assert_eq!(resolve_handler(&processors, "on_select_source_file"), Some(Handler::SelectSourceFile));
    assert_eq!(resolve_handler(&processors, "on_reload_input"), Some(Handler::ReloadInput));
    assert_eq!(resolve_handler(&processors, "on_clear_log"), Some(Handler::ClearLog));
    assert_eq!(resolve_handler(&processors, "on_swap_img"), Some(Handler::SwapImg));
    assert_eq!(resolve_handler(&processors, "on_wnd_resize"), Some(Handler::WndResize));
    assert_eq!(resolve_handler(&processors, "on_toggle_auto_shrink"), Some(Handler::ToggleAutoShrink));
    assert_eq!(resolve_handler(&Vec::new(), "on_clear_log"), Some(Handler::ClearLog));
}

#[test]
fn an_event_resolves_to_the_processor_that_claims_it() {
    let processors = load_processors();
    assert_eq!(
        resolve_handler(&processors, "on_affine_trans_run"),
        Some(Handler::Processor { index: 0, trigger: Trigger::AffineTransRun })
    );
    assert_eq!(
        resolve_handler(&processors, "on_dft_idft"),
        Some(Handler::Processor { index: 1, trigger: Trigger::Dft { inverse: true } })
    );
    assert_eq!(
        resolve_handler(&processors, "on_noise_gauss_run"),
        Some(Handler::Processor { index: 2, trigger: Trigger::NoiseGaussRun })
    );
    assert_eq!(
        resolve_handler(&processors, "on_filter_run_wiener"),
        Some(Handler::Processor { index: 3, trigger: Trigger::FilterRun(FilterType::Wiener) })
    );
}

#[test]
fn the_first_claimant_in_the_list_wins() {
    let processors = vec![Processor::Filter, Processor::DFT, Processor::DFT];
    assert_eq!(
        resolve_handler(&processors, "on_dft_dft"),
        Some(Handler::Processor { index: 1, trigger: Trigger::Dft { inverse: false } })
    );
}

#[test]
fn an_event_that_nobody_claims_is_not_claimed() {
    let processors = load_processors();
    assert!(!is_claimed(&processors, "on_linear_trans_run"));
    assert!(!is_claimed(&processors, "on_nothing"));
    assert!(!is_claimed(&processors, ""));
    assert!(!is_claimed(&Vec::new(), "on_dft_dft"));
}

#[test]
fn an_event_of_the_host_or_of_a_processor_is_claimed() {
    let processors = load_processors();
    for name in [
        "on_select_source_file",
        "on_reload_input",
        "on_clear_log",
        "on_swap_img",
        "on_wnd_resize",
        "on_toggle_auto_shrink",
        "on_affine_trans_reset",
        "on_dft_dft",
        "on_noise_gauss_run",
        "on_filter_run_bilateral",
    ] {
        assert!(is_claimed(&processors, name), "{}", name);
        assert!(resolve_handler(&processors, name).is_some(), "{}", name);
    }
    assert!(is_claimed(&Vec::new(), "on_clear_log"));
}

#[test]
fn a_processor_outside_the_loaded_list_claims_once_it_is_listed() {
    let with_linear = vec![Processor::LinearTransform];
    assert!(is_claimed(&with_linear, "on_linear_trans_run"));
    assert_eq!(
        resolve_handler(&with_linear, "on_linear_trans_run"),
        Some(Handler::Processor { index: 0, trigger: Trigger::LinearTransRun })
    );
}

#[test]
fn the_host_knows_its_own_events_only() {
    assert_eq!(own_handler("on_swap_img"), Some(Handler::SwapImg));
    assert_eq!(own_handler("on_wnd_resize"), Some(Handler::WndResize));
    assert_eq!(own_handler("on_dft_dft"), None);
    assert_eq!(own_handler("on_swap"), None);
}

#[test]
fn triggers_name_their_controls_in_parameter_order() {
    assert_eq!(Trigger::AffineTransRun.controls(), vec!["scl_affine_trans_scale", "scl_affine_trans_rotate"]);
    assert_eq!(Trigger::AffineTransReset.controls(), Trigger::AffineTransRun.controls());
    assert!(Trigger::Dft { inverse: true }.controls().is_empty());
    assert_eq!(Trigger::NoiseGaussRun.controls(), vec!["scl_noise_gauss_mu", "scl_noise_gauss_sigma"]);
    assert_eq!(
        Trigger::FilterRun(FilterType::Box).controls(),
        vec![
            "scl_filter_neighbor",
            "scl_filter_gauss_sigma",
            "scl_filter_bilateral_sigma_d",
            "scl_filter_bilateral_sigma_r"
        ]
    );
    assert_eq!(Trigger::LinearTransRun.controls(), vec!["scl_linear_trans_scale", "scl_linear_trans_rotate"]);
}

#[test]
fn resetting_triggers_give_rest_values_and_dispatch_nothing() {
    assert_eq!(Trigger::AffineTransReset.rest_values(), vec![1, 0]);
    assert_eq!(Trigger::NoiseGaussReset.rest_values(), vec![0, 0]);
    assert_eq!(Trigger::LinearTransReset.rest_values(), vec![1, 0]);
    assert!(!Trigger::AffineTransReset.dispatches());
    assert!(!Trigger::NoiseGaussReset.dispatches());
    assert!(!Trigger::LinearTransReset.dispatches());
    assert!(Trigger::AffineTransRun.dispatches());
    assert!(Trigger::Dft { inverse: false }.dispatches());
    assert!(Trigger::FilterRun(FilterType::Bilateral).dispatches());
    assert!(Trigger::AffineTransRun.rest_values().is_empty());
}

#[test]
fn a_processor_accepts_only_its_own_parameters() {
    let affine: Args<f32> = Args::AffineTransform { scale: 1.0, rotate: 0.0 };
    let dft: Args<f32> = Args::DFT { inverse: true };
    let noise: Args<f32> = Args::Noise { mu: 0.0, sigma: 1.0 };
    let filter: Args<f32> = Args::Filter {
        filter_ty: FilterType::Box,
        neighbor: 3,
        gauss_sigma: 1.0,
        bila_sigma_d: 1.0,
        bila_sigma_r: 1.0,
    };
    let linear: Args<f32> = Args::LinearTransform { scale: 1.0, rotate: 0.0 };
    assert!(Processor::AffineTransform.accepts(&affine));
    assert!(Processor::DFT.accepts(&dft));
    assert!(Processor::Noise.accepts(&noise));
    assert!(Processor::Filter.accepts(&filter));
    assert!(Processor::LinearTransform.accepts(&linear));
    assert!(!Processor::AffineTransform.accepts(&linear));
    assert!(!Processor::DFT.accepts(&noise));
    assert!(!Processor::Filter.accepts(&affine));
    assert!(!Processor::Noise.accepts(&filter));
}

#[test]
fn linear_transform_hands_the_image_through() {
    let img: Image<f32, (f32, f32)> = Image::Normal(Array3::from_elem(1, 2, 3, 0.5));
    let out = LinearTransform.run(img).ok().unwrap();
    assert_eq!(out.expect_normal().unwrap().into_raw_vec(), vec![0.5; 6]);
}
