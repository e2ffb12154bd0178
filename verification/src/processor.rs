//! The protocol between the host and the processors: which processor
//! answers to which event, and what its trigger asks of the host.

use crate::affine_transform::AffineTransform;
use crate::dft::DFT;
use crate::filter::{Filter, FilterType};
use crate::image::Image;
use crate::error::Error;
use crate::noise::Noise;
use vstd::prelude::*;

verus! {

/// Whether two strings hold the same characters.
pub fn same(a: &str, b: &str) -> (r: bool)
    ensures
        r == (a@ == b@),
{
    a.to_owned() == b.to_owned()
}

/// What a processor's trigger does when the host fires it.
#[derive(Clone, Copy, Debug, PartialEq, Eq, Structural)]
pub enum Trigger {
    /// Puts the controls of the affine transform back to rest.
    AffineTransReset,
    /// Reads scale and rotation and dispatches the affine transform.
    AffineTransRun,
    /// Dispatches the transform, forward or inverse.
    Dft { inverse: bool },
    /// Puts the controls of the noise back to rest.
    NoiseGaussReset,
    /// Reads mean and deviation and dispatches the noise.
    NoiseGaussRun,
    /// Reads the filter's controls and dispatches the filter.
    FilterRun(FilterType),
    /// Puts the controls of the linear transform back to rest.
    LinearTransReset,
    /// Reads scale and rotation and dispatches the linear transform.
    LinearTransRun,
}

impl Trigger {
    /// Whether the trigger dispatches a job; the others only set controls.
    pub open spec fn dispatches_spec(&self) -> bool {
        match self {
            Trigger::AffineTransReset | Trigger::NoiseGaussReset | Trigger::LinearTransReset => false,
            _ => true,
        }
    }

    /// Whether the trigger dispatches a job; the others only set controls.
    pub fn dispatches(&self) -> (r: bool)
        ensures
            r == self.dispatches_spec(),
    {
        match self {
            Trigger::AffineTransReset | Trigger::NoiseGaussReset | Trigger::LinearTransReset => false,
            _ => true,
        }
    }

    /// The names of the controls that the trigger reads or sets, in the
    /// order of its parameters.
    pub open spec fn controls_spec(&self) -> Seq<Seq<char>> {
        match self {
            Trigger::AffineTransReset | Trigger::AffineTransRun => seq![
                "scl_affine_trans_scale"@,
                "scl_affine_trans_rotate"@,
            ],
            Trigger::Dft { .. } => seq![],
            Trigger::NoiseGaussReset | Trigger::NoiseGaussRun => seq![
                "scl_noise_gauss_mu"@,
                "scl_noise_gauss_sigma"@,
            ],
            Trigger::FilterRun(_) => seq![
                "scl_filter_neighbor"@,
                "scl_filter_gauss_sigma"@,
                "scl_filter_bilateral_sigma_d"@,
                "scl_filter_bilateral_sigma_r"@,
            ],
            Trigger::LinearTransReset | Trigger::LinearTransRun => seq![
                "scl_linear_trans_scale"@,
                "scl_linear_trans_rotate"@,
            ],
        }
    }

    /// The names of the controls that the trigger reads or sets, in the
    /// order of its parameters.
    pub fn controls(&self) -> (r: Vec<&'static str>)
        ensures
            r@.len() == self.controls_spec().len(),
            forall|i: int| 0 <= i < r@.len() ==> (#[trigger] r@[i])@ == self.controls_spec()[i],
    {
        let mut r: Vec<&'static str> = Vec::new();
        match self {
            Trigger::AffineTransReset | Trigger::AffineTransRun => {
                r.push("scl_affine_trans_scale");
                r.push("scl_affine_trans_rotate");
            },
            Trigger::Dft { .. } => {},
            Trigger::NoiseGaussReset | Trigger::NoiseGaussRun => {
                r.push("scl_noise_gauss_mu");
                r.push("scl_noise_gauss_sigma");
            },
            Trigger::FilterRun(_) => {
                r.push("scl_filter_neighbor");
                r.push("scl_filter_gauss_sigma");
                r.push("scl_filter_bilateral_sigma_d");
                r.push("scl_filter_bilateral_sigma_r");
            },
            Trigger::LinearTransReset | Trigger::LinearTransRun => {
                r.push("scl_linear_trans_scale");
                r.push("scl_linear_trans_rotate");
            },
        }
        r
    }

    /// The values at rest of the controls of a resetting trigger, in the
    /// order of [`Trigger::controls`]; empty for a dispatching trigger.
    pub open spec fn rest_values_spec(&self) -> Seq<i32> {
        match self {
            Trigger::AffineTransReset | Trigger::LinearTransReset => seq![1i32, 0i32],
            Trigger::NoiseGaussReset => seq![0i32, 0i32],
            _ => seq![],
        }
    }

    /// The values at rest of the controls of a resetting trigger, in the
    /// order of [`Trigger::controls`]; empty for a dispatching trigger.
    pub fn rest_values(&self) -> (r: Vec<i32>)
        ensures
            r@ == self.rest_values_spec(),
    {
        let mut r: Vec<i32> = Vec::new();
        match self {
            Trigger::AffineTransReset | Trigger::LinearTransReset => {
                r.push(1);
                r.push(0);
            },
            Trigger::NoiseGaussReset => {
                r.push(0);
                r.push(0);
            },
            _ => {},
        }
        proof {
            assert(r@ =~= self.rest_values_spec());
        }
        r
    }
}

/// A unit of execution that answers to named events of the host.
pub trait ImageProcessor {
    /// The trigger that the processor binds to the event, if it claims the
    /// event.
    spec fn claims(&self, handler_name: Seq<char>) -> Option<Trigger>;

    /// Binds the named event: `None` declines it, so that the host asks
    /// the next processor.
    fn register_handler(&self, handler_name: &str) -> (r: Option<Trigger>)
        ensures
            r == self.claims(handler_name@),
    ;
}

impl ImageProcessor for AffineTransform {
    open spec fn claims(&self, handler_name: Seq<char>) -> Option<Trigger> {
        if handler_name == "on_affine_trans_reset"@ {
            Some(Trigger::AffineTransReset)
        } else if handler_name == "on_affine_trans_run"@ {
            Some(Trigger::AffineTransRun)
        } else {
            None
        }
    }

    fn register_handler(&self, handler_name: &str) -> (r: Option<Trigger>) {
        if same(handler_name, "on_affine_trans_reset") {
            Some(Trigger::AffineTransReset)
        } else if same(handler_name, "on_affine_trans_run") {
            Some(Trigger::AffineTransRun)
        } else {
            None
        }
    }
}

impl ImageProcessor for DFT {
    open spec fn claims(&self, handler_name: Seq<char>) -> Option<Trigger> {
        if handler_name == "on_dft_dft"@ {
            Some(Trigger::Dft { inverse: false })
        } else if handler_name == "on_dft_idft"@ {
            Some(Trigger::Dft { inverse: true })
        } else {
            None
        }
    }

    fn register_handler(&self, handler_name: &str) -> (r: Option<Trigger>) {
        if same(handler_name, "on_dft_dft") {
            Some(Trigger::Dft { inverse: false })
        } else if same(handler_name, "on_dft_idft") {
            Some(Trigger::Dft { inverse: true })
        } else {
            None
        }
    }
}

impl ImageProcessor for Noise {
    open spec fn claims(&self, handler_name: Seq<char>) -> Option<Trigger> {
        if handler_name == "on_noise_gauss_reset"@ {
            Some(Trigger::NoiseGaussReset)
        } else if handler_name == "on_noise_gauss_run"@ {
            Some(Trigger::NoiseGaussRun)
        } else {
            None
        }
    }

    fn register_handler(&self, handler_name: &str) -> (r: Option<Trigger>) {
        if same(handler_name, "on_noise_gauss_reset") {
            Some(Trigger::NoiseGaussReset)
        } else if same(handler_name, "on_noise_gauss_run") {
            Some(Trigger::NoiseGaussRun)
        } else {
            None
        }
    }
}

impl ImageProcessor for Filter {
    open spec fn claims(&self, handler_name: Seq<char>) -> Option<Trigger> {
        if handler_name == "on_filter_run_box"@ {
            Some(Trigger::FilterRun(FilterType::Box))
        } else if handler_name == "on_filter_run_gauss"@ {
            Some(Trigger::FilterRun(FilterType::Gaussian))
        } else if handler_name == "on_filter_run_gauss_ocl"@ {
            Some(Trigger::FilterRun(FilterType::GaussianCL))
        } else if handler_name == "on_filter_run_wiener"@ {
            Some(Trigger::FilterRun(FilterType::Wiener))
        } else if handler_name == "on_filter_run_bilateral"@ {
            Some(Trigger::FilterRun(FilterType::Bilateral))
        } else {
            None
        }
    }

    fn register_handler(&self, handler_name: &str) -> (r: Option<Trigger>) {
        if same(handler_name, "on_filter_run_box") {
            Some(Trigger::FilterRun(FilterType::Box))
        } else if same(handler_name, "on_filter_run_gauss") {
            Some(Trigger::FilterRun(FilterType::Gaussian))
        } else if same(handler_name, "on_filter_run_gauss_ocl") {
            Some(Trigger::FilterRun(FilterType::GaussianCL))
        } else if same(handler_name, "on_filter_run_wiener") {
            Some(Trigger::FilterRun(FilterType::Wiener))
        } else if same(handler_name, "on_filter_run_bilateral") {
            Some(Trigger::FilterRun(FilterType::Bilateral))
        } else {
            None
        }
    }
}

/// The processor of the linear transform, which hands the image through.
#[derive(Clone, Copy, Debug)]
pub struct LinearTransform;

impl LinearTransform {
    /// Returns the image as it came.
    pub fn run<T, C>(&self, src: Image<T, C>) -> (out: Result<Image<T, C>, Error>)
        ensures
            out == Ok::<Image<T, C>, Error>(src),
    {
        Ok(src)
    }
}

impl ImageProcessor for LinearTransform {
    open spec fn claims(&self, handler_name: Seq<char>) -> Option<Trigger> {
        if handler_name == "on_linear_trans_reset"@ {
            Some(Trigger::LinearTransReset)
        } else if handler_name == "on_linear_trans_run"@ {
            Some(Trigger::LinearTransRun)
        } else {
            None
        }
    }

    fn register_handler(&self, handler_name: &str) -> (r: Option<Trigger>) {
        if same(handler_name, "on_linear_trans_reset") {
            Some(Trigger::LinearTransReset)
        } else if same(handler_name, "on_linear_trans_run") {
            Some(Trigger::LinearTransRun)
        } else {
            None
        }
    }
}

/// One of the processors that the host can load.
#[derive(Clone, Copy, Debug, PartialEq, Eq, Structural)]
pub enum Processor {
    AffineTransform,
    DFT,
    Noise,
    Filter,
    LinearTransform,
}

impl ImageProcessor for Processor {
    open spec fn claims(&self, handler_name: Seq<char>) -> Option<Trigger> {
        match self {
            Processor::AffineTransform => AffineTransform.claims(handler_name),
            Processor::DFT => DFT.claims(handler_name),
            Processor::Noise => Noise.claims(handler_name),
            Processor::Filter => Filter.claims(handler_name),
            Processor::LinearTransform => LinearTransform.claims(handler_name),
        }
    }

    fn register_handler(&self, handler_name: &str) -> (r: Option<Trigger>) {
        match self {
            Processor::AffineTransform => AffineTransform.register_handler(handler_name),
            Processor::DFT => DFT.register_handler(handler_name),
            Processor::Noise => Noise.register_handler(handler_name),
            Processor::Filter => Filter.register_handler(handler_name),
            Processor::LinearTransform => LinearTransform.register_handler(handler_name),
        }
    }
}

/// The processors in the order in which the host asks them.
pub open spec fn loaded() -> Seq<Processor> {
    seq![Processor::AffineTransform, Processor::DFT, Processor::Noise, Processor::Filter]
}

/// The processors that the host loads, in the order in which it asks them.
pub fn load_processors() -> (r: Vec<Processor>)
    ensures
        r@ == loaded(),
{
    let mut r: Vec<Processor> = Vec::new();
    r.push(Processor::AffineTransform);
    r.push(Processor::DFT);
    r.push(Processor::Noise);
    r.push(Processor::Filter);
    proof {
        assert(r@ =~= loaded());
    }
    r
}

/// The parameters of one job, as its trigger collected them; `P` is the
/// type of a control's value.
#[derive(Clone, Copy, Debug, PartialEq)]
pub enum Args<P> {
    AffineTransform { scale: P, rotate: P },
    DFT { inverse: bool },
    Noise { mu: P, sigma: P },
    Filter { filter_ty: FilterType, neighbor: usize, gauss_sigma: P, bila_sigma_d: P, bila_sigma_r: P },
    LinearTransform { scale: P, rotate: P },
}

impl Processor {
    /// Whether the parameters are those that this processor takes.
    pub open spec fn accepts_spec<P>(&self, args: &Args<P>) -> bool {
        match (self, args) {
            (Processor::AffineTransform, Args::AffineTransform { .. }) => true,
            (Processor::DFT, Args::DFT { .. }) => true,
            (Processor::Noise, Args::Noise { .. }) => true,
            (Processor::Filter, Args::Filter { .. }) => true,
            (Processor::LinearTransform, Args::LinearTransform { .. }) => true,
            _ => false,
        }
    }

    /// Whether the parameters are those that this processor takes.
    pub fn accepts<P>(&self, args: &Args<P>) -> (r: bool)
        ensures
            r == self.accepts_spec(args),
    {
        match (self, args) {
            (Processor::AffineTransform, Args::AffineTransform { .. }) => true,
            (Processor::DFT, Args::DFT { .. }) => true,
            (Processor::Noise, Args::Noise { .. }) => true,
            (Processor::Filter, Args::Filter { .. }) => true,
            (Processor::LinearTransform, Args::LinearTransform { .. }) => true,
            _ => false,
        }
    }
}

/// What the host does for a named event.
#[derive(Clone, Copy, Debug, PartialEq, Eq, Structural)]
pub enum Handler {
    /// Load the chosen file as the input image.
    SelectSourceFile,
    /// Load the chosen file again.
    ReloadInput,
    /// Empty the log.
    ClearLog,
    /// Exchange input and output image.
    SwapImg,
    /// Fit the images to the resized window.
    WndResize,
    /// Switch the fitting of images on or off.
    ToggleAutoShrink,
    /// Fire the trigger of the processor at `index`.
    Processor { index: usize, trigger: Trigger },
}

/// What the host itself does for the event, if it is one of its own.
pub open spec fn host_handler(handler_name: Seq<char>) -> Option<Handler> {
    if handler_name == "on_select_source_file"@ {
        Some(Handler::SelectSourceFile)
    } else if handler_name == "on_reload_input"@ {
        Some(Handler::ReloadInput)
    } else if handler_name == "on_clear_log"@ {
        Some(Handler::ClearLog)
    } else if handler_name == "on_swap_img"@ {
        Some(Handler::SwapImg)
    } else if handler_name == "on_wnd_resize"@ {
        Some(Handler::WndResize)
    } else if handler_name == "on_toggle_auto_shrink"@ {
        Some(Handler::ToggleAutoShrink)
    } else {
        None
    }
}

/// Whether none of the first `n` processors claims the event.
pub open spec fn unclaimed(processors: Seq<Processor>, n: int, handler_name: Seq<char>) -> bool {
    forall|j: int| 0 <= j < n ==> (#[trigger] processors[j]).claims(handler_name).is_none()
}

/// The handler of a claimed event: the host's own if it has one, else the
/// trigger of the first processor that claims the event.
pub open spec fn resolved(
    processors: Seq<Processor>,
    handler_name: Seq<char>,
    r: Option<Handler>,
) -> bool {
    match host_handler(handler_name) {
        Some(h) => r == Some(h),
        None => match r {
            Some(Handler::Processor { index, trigger }) => {
                &&& index < processors.len()
                &&& processors[index as int].claims(handler_name) == Some(trigger)
                &&& unclaimed(processors, index as int, handler_name)
            },
            _ => false,
        },
    }
}

/// Whether the host or one of the processors claims the event.
pub open spec fn claimed(processors: Seq<Processor>, handler_name: Seq<char>) -> bool {
    host_handler(handler_name).is_some() || exists|j: int|
        0 <= j < processors.len() && (#[trigger] processors[j]).claims(handler_name).is_some()
}

/// What the host itself does for the event, if it is one of its own.
pub fn own_handler(handler_name: &str) -> (r: Option<Handler>)
    ensures
        r == host_handler(handler_name@),
{
    if same(handler_name, "on_select_source_file") {
        Some(Handler::SelectSourceFile)
    } else if same(handler_name, "on_reload_input") {
        Some(Handler::ReloadInput)
    } else if same(handler_name, "on_clear_log") {
        Some(Handler::ClearLog)
    } else if same(handler_name, "on_swap_img") {
        Some(Handler::SwapImg)
    } else if same(handler_name, "on_wnd_resize") {
        Some(Handler::WndResize)
    } else if same(handler_name, "on_toggle_auto_shrink") {
        Some(Handler::ToggleAutoShrink)
    } else {
        None
    }
}

/// Tests [`claimed`]: whether the event has a handler at all.
pub fn is_claimed(processors: &Vec<Processor>, handler_name: &str) -> (r: bool)
    ensures
        r == claimed(processors@, handler_name@),
{
    if own_handler(handler_name).is_some() {
        return true;
    }
    let mut i: usize = 0;
    while i < processors.len()
        invariant
            i <= processors@.len(),
            host_handler(handler_name@).is_none(),
            unclaimed(processors@, i as int, handler_name@),
        decreases processors@.len() - i,
    {
        if processors[i].register_handler(handler_name).is_some() {
            return true;
        }
        i += 1;
    }
    false
}

/// Finds the handler of a named event that has one: the host's own events
/// first, then the processors in order until one claims it. An event that
/// nobody claims has no handler and is not to be asked for.
pub fn resolve_handler(processors: &Vec<Processor>, handler_name: &str) -> (r: Option<Handler>)
    requires
        claimed(processors@, handler_name@),
    ensures
        r.is_some(),
        resolved(processors@, handler_name@, r),
{
    match own_handler(handler_name) {
        Some(h) => {
            return Some(h);
        },
        None => {},
    }
    let mut i: usize = 0;
    while i < processors.len()
        invariant
            i <= processors@.len(),
            host_handler(handler_name@).is_none(),
            unclaimed(processors@, i as int, handler_name@),
        decreases processors@.len() - i,
    {
        match processors[i].register_handler(handler_name) {
            Some(trigger) => {
                return Some(Handler::Processor { index: i, trigger });
            },
            None => {},
        }
        i += 1;
    }
    // Not reached: a claimed event has a claimant in the list.
    None
}

} // verus!
