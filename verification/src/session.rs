//! The host's state around one source image: at most one job is in flight
//! at a time, and its result comes back as an event.

use vstd::prelude::*;

verus! {

/// What comes back to the host from a job or from the engine's log. `I`
/// is the host's image, with whatever it keeps beside it for display.
#[derive(Clone, Debug, PartialEq, Eq)]
pub enum GuiEvent<I> {
    /// A line for the log.
    Log(String),
    /// The result of the job in flight.
    ImageOutput(I),
    /// The job in flight ended without a result.
    WorkerError,
}

/// What the host shows after an event.
#[derive(Clone, Debug, PartialEq, Eq)]
pub enum Effect {
    /// Append the text to the log.
    AppendLog(String),
    /// Show the new output image.
    ShowOutput,
    /// Nothing to show.
    Nothing,
}

/// Why a job was not started.
#[derive(Clone, Copy, Debug, PartialEq, Eq, Structural)]
pub enum Refusal {
    /// Another job is still running.
    Busy,
    /// There is no input image.
    NoInput,
}

impl Refusal {
    /// The line that the log gets for the refusal.
    pub open spec fn message_spec(&self) -> Seq<char> {
        match self {
            Refusal::Busy => "Error: Anothing job is running. Please wait."@,
            Refusal::NoInput => "Error: No input image"@,
        }
    }

    /// The line that the log gets for the refusal.
    pub fn message(&self) -> (text: &'static str)
        ensures
            text@ == self.message_spec(),
    {
        match self {
            Refusal::Busy => "Error: Anothing job is running. Please wait.",
            Refusal::NoInput => "Error: No input image",
        }
    }
}

/// The host's state.
#[derive(Clone, Debug, PartialEq, Eq)]
pub struct GuiState<I> {
    pub image_input: Option<I>,
    pub image_output: Option<I>,
    pub processing: bool,
    pub auto_shrink: bool,
}

impl<I> Default for GuiState<I> {
    fn default() -> (r: Self)
        ensures
            r.image_input.is_none(),
            r.image_output.is_none(),
            !r.processing,
            r.auto_shrink,
    {
        GuiState { image_input: None, image_output: None, processing: false, auto_shrink: true }
    }
}

impl<I> GuiState<I> {
    /// The state after a trigger asked for a job, and the answer it got.
    pub open spec fn begin_job_spec(self) -> (Self, Result<(), Refusal>) {
        if self.processing {
            (self, Err(Refusal::Busy))
        } else if self.image_input.is_none() {
            (self, Err(Refusal::NoInput))
        } else {
            (GuiState { processing: true, ..self }, Ok(()))
        }
    }

    /// The state after an event, apart from what is shown.
    pub open spec fn on_gui_event_spec(self, event: GuiEvent<I>) -> Self {
        match event {
            GuiEvent::Log(_) => self,
            GuiEvent::ImageOutput(img) => GuiState {
                image_output: Some(img),
                processing: false,
                ..self
            },
            GuiEvent::WorkerError => GuiState { processing: false, ..self },
        }
    }

    /// The state after the host asked to exchange input and output.
    pub open spec fn swap_img_spec(self) -> Self {
        if self.processing {
            self
        } else {
            GuiState { image_input: self.image_output, image_output: self.image_input, ..self }
        }
    }

    /// The state after a file was loaded, or failed to load (`None`).
    pub open spec fn load_input_spec(self, loaded: Option<I>) -> Self {
        if self.processing {
            self
        } else {
            GuiState { image_input: loaded, ..self }
        }
    }

    /// Whether a job is in flight, in which case the host refuses what
    /// would touch the images.
    pub fn check_processing(&self) -> (r: bool)
        ensures
            r == self.processing,
    {
        self.processing
    }

    /// Asks for a job on the input image. A job in flight or a missing
    /// input refuses it and leaves the state as it is; otherwise the job
    /// is in flight from now on.
    pub fn begin_job(&mut self) -> (r: Result<(), Refusal>)
        ensures
            (*final(self), r) == old(self).begin_job_spec(),
    {
        if self.processing {
            return Err(Refusal::Busy);
        }
        if self.image_input.is_none() {
            return Err(Refusal::NoInput);
        }
        self.processing = true;
        Ok(())
    }

    /// Takes an event in. A result becomes the output image and ends the
    /// job in flight; a failure ends it too; a log line changes nothing.
    pub fn on_gui_event(&mut self, event: GuiEvent<I>) -> (r: Effect)
        ensures
            *final(self) == old(self).on_gui_event_spec(event),
            match event {
                GuiEvent::Log(content) => r == Effect::AppendLog(content),
                GuiEvent::ImageOutput(_) => r == Effect::ShowOutput,
                GuiEvent::WorkerError => r == Effect::Nothing,
            },
    {
        match event {
            GuiEvent::Log(content) => Effect::AppendLog(content),
            GuiEvent::ImageOutput(img) => {
                self.image_output = Some(img);
                self.processing = false;
                Effect::ShowOutput
            },
            GuiEvent::WorkerError => {
                self.processing = false;
                Effect::Nothing
            },
        }
    }

    /// Exchanges input and output image unless a job is in flight; tells
    /// whether it did.
    pub fn swap_img(&mut self) -> (r: bool)
        ensures
            *final(self) == old(self).swap_img_spec(),
            r == !old(self).processing,
    {
        if self.processing {
            return false;
        }
        let input = self.image_input.take();
        let output = self.image_output.take();
        self.image_input = output;
        self.image_output = input;
        true
    }

    /// Takes a freshly loaded input image, or clears the input where
    /// loading failed, unless a job is in flight; tells whether it did.
    pub fn load_input(&mut self, loaded: Option<I>) -> (r: bool)
        ensures
            *final(self) == old(self).load_input_spec(loaded),
            r == !old(self).processing,
    {
        if self.processing {
            return false;
        }
        self.image_input = loaded;
        true
    }

    /// Switches the fitting of images to the window on or off.
    pub fn toggle_auto_shrink(&mut self)
        ensures
            *final(self) == (GuiState { auto_shrink: !old(self).auto_shrink, ..*old(self) }),
    {
        self.auto_shrink = !self.auto_shrink;
    }

    /// Whether a resize redraws the images: when forced, or when images
    /// are fitted to the window.
    pub fn on_resize(&self, force: bool) -> (r: bool)
        ensures
            r == (force || self.auto_shrink),
    {
        force || self.auto_shrink
    }
}

/// While a job is in flight every further trigger is refused as busy and
/// changes nothing, so the result of the job in flight arrives as if the
/// trigger had never come.
pub proof fn lemma_single_flight<I>(s: GuiState<I>, img: I)
    requires
        s.begin_job_spec().1.is_ok(),
    ensures
        ({
            let running = s.begin_job_spec().0;
            &&& running.processing
            &&& running.begin_job_spec() == (running, Err::<(), Refusal>(Refusal::Busy))
            &&& running.begin_job_spec().0.on_gui_event_spec(GuiEvent::ImageOutput(img))
                == running.on_gui_event_spec(GuiEvent::ImageOutput(img))
            &&& running.on_gui_event_spec(GuiEvent::ImageOutput(img)).image_output == Some(img)
        }),
{
}

/// Once the job in flight has ended, with a result or without, a new job
/// on the same input starts.
pub proof fn lemma_job_end_frees<I>(s: GuiState<I>, event: GuiEvent<I>)
    requires
        s.processing,
        s.image_input.is_some(),
        event is ImageOutput || event is WorkerError,
    ensures
        s.on_gui_event_spec(event).begin_job_spec().1.is_ok(),
{
}

/// How a job ended.
#[derive(Clone, Debug, PartialEq, Eq)]
pub enum JobEnd<I> {
    /// The processor returned this image.
    Done(I),
    /// The processor returned a failure; the text is the line for the log.
    Failed(String),
    /// The job ended unexpectedly; the text is the line for the log.
    Panicked(String),
}

/// What the watchdog sends when a job has ended: exactly one terminal
/// event, the image on success and a worker error otherwise, the latter
/// preceded by the line for the log.
pub fn job_events<I>(end: JobEnd<I>) -> (r: (Option<String>, GuiEvent<I>))
    ensures
        match end {
            JobEnd::Done(img) => r == (None::<String>, GuiEvent::ImageOutput(img)),
            JobEnd::Failed(text) => r == (Some(text), GuiEvent::<I>::WorkerError),
            JobEnd::Panicked(text) => r == (Some(text), GuiEvent::<I>::WorkerError),
        },
{
    match end {
        JobEnd::Done(img) => (None, GuiEvent::ImageOutput(img)),
        JobEnd::Failed(text) => (Some(text), GuiEvent::WorkerError),
        JobEnd::Panicked(text) => (Some(text), GuiEvent::WorkerError),
    }
}

/// A job that started ends the state's job in flight whatever its end:
/// the terminal event of every end frees the state, and only a finished
/// job changes the output image.
pub proof fn lemma_job_events_end_the_job<I>(s: GuiState<I>, end: JobEnd<I>)
    requires
        s.processing,
    ensures
        ({
            let event = match end {
                JobEnd::Done(img) => GuiEvent::ImageOutput(img),
                _ => GuiEvent::<I>::WorkerError,
            };
            let after = s.on_gui_event_spec(event);
            &&& !after.processing
            &&& after.image_input == s.image_input
            &&& match end {
                JobEnd::Done(img) => after.image_output == Some(img),
                _ => after.image_output == s.image_output,
            }
        }),
{
}

/// A lapse of time, split for display into seconds and three groups of
/// three digits.
#[derive(Clone, Copy, Debug, PartialEq, Eq, Structural)]
pub struct Elapsed {
    pub secs: u128,
    pub millis: u16,
    pub micros: u16,
    pub nanos: u16,
}

impl Elapsed {
    /// The lapse in nanoseconds.
    pub open spec fn total(&self) -> int {
        ((self.secs * 1000 + self.millis) * 1000 + self.micros) * 1000 + self.nanos
    }

    /// Splits a lapse of `ns` nanoseconds.
    pub fn from_nanos(ns: u128) -> (r: Elapsed)
        ensures
            r.total() == ns,
            r.millis < 1000,
            r.micros < 1000,
            r.nanos < 1000,
    {
        let micros_in_all = ns / 1_000;
        let millis_in_all = micros_in_all / 1_000;
        Elapsed {
            secs: millis_in_all / 1_000,
            millis: (millis_in_all % 1_000) as u16,
            micros: (micros_in_all % 1_000) as u16,
            nanos: (ns % 1_000) as u16,
        }
    }
}

} // verus!
