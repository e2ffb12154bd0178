//! The capture pipeline: a worker reads frames at the source's pace and
//! hands those it finishes in time to the display.

use crate::frame::Frame;
use vstd::prelude::*;

verus! {

/// What the worker sends to the display.
#[derive(Clone, Debug, PartialEq, Eq)]
pub enum GuiEvent {
    /// A frame to show.
    Frame(Frame),
    /// The worker ended with a failure; nothing more will come.
    Error(String),
}

/// Where the pipeline stands.
#[derive(Clone, Copy, Debug, PartialEq, Eq, Structural)]
pub enum Phase {
    /// No worker was started yet.
    Idle,
    /// A worker reads and sends frames.
    Running,
    /// The host stopped the worker.
    Stopped,
    /// The worker ended with a failure.
    Errored,
}

/// Why the pipeline did not start.
#[derive(Clone, Copy, Debug, PartialEq, Eq, Structural)]
pub enum StartError {
    /// No file was chosen.
    NoFileOpened,
    /// The file's path is not text.
    InvalidPath,
    /// The file could not be opened as a video.
    InvalidVideoFile,
}

impl StartError {
    /// The text shown to the user.
    pub open spec fn message_spec(&self) -> Seq<char> {
        match self {
            StartError::NoFileOpened => "No file opened"@,
            StartError::InvalidPath => "Invalid path"@,
            StartError::InvalidVideoFile => "Invalid video file"@,
        }
    }

    /// The text shown to the user.
    pub fn message(&self) -> (text: &'static str)
        ensures
            text@ == self.message_spec(),
    {
        match self {
            StartError::NoFileOpened => "No file opened",
            StartError::InvalidPath => "Invalid path",
            StartError::InvalidVideoFile => "Invalid video file",
        }
    }
}

/// What the host found when it tried to open the chosen file.
#[derive(Clone, Copy, Debug, PartialEq, Eq, Structural)]
pub enum Probe {
    /// The path is not text.
    NotText,
    /// The file did not open as a video.
    Unopened,
    /// The capture is open.
    Opened,
}

/// The host's state. `F` names a file; `G` is the guard whose release
/// tells the worker to stop.
#[derive(Clone, Debug, PartialEq, Eq)]
pub struct GuiState<F, G> {
    pub phase: Phase,
    pub file_name: Option<F>,
    pub stop_guard: Option<G>,
    pub frame_counter: usize,
}

impl<F, G> Default for GuiState<F, G> {
    fn default() -> (r: Self)
        ensures
            r.phase == Phase::Idle,
            r.file_name.is_none(),
            r.stop_guard.is_none(),
            r.frame_counter == 0,
    {
        GuiState { phase: Phase::Idle, file_name: None, stop_guard: None, frame_counter: 0 }
    }
}

impl<F, G> GuiState<F, G> {
    /// Whether a worker is running.
    pub open spec fn running(&self) -> bool {
        self.phase == Phase::Running
    }

    /// The outcome of starting, from whether a file is chosen and from
    /// what opening it gave.
    pub open spec fn start_outcome(&self, probe: Probe) -> Result<(), StartError> {
        if self.file_name.is_none() {
            Err(StartError::NoFileOpened)
        } else {
            match probe {
                Probe::NotText => Err(StartError::InvalidPath),
                Probe::Unopened => Err(StartError::InvalidVideoFile),
                Probe::Opened => Ok(()),
            }
        }
    }

    /// Whether a worker is running.
    pub fn is_running(&self) -> (r: bool)
        ensures
            r == self.running(),
    {
        match self.phase {
            Phase::Running => true,
            _ => false,
        }
    }

    /// Remembers the chosen file.
    pub fn select_src(&mut self, file: Option<F>)
        ensures
            final(self).file_name == file,
            final(self).phase == old(self).phase,
            final(self).stop_guard == old(self).stop_guard,
            final(self).frame_counter == old(self).frame_counter,
    {
        self.file_name = file;
    }

    /// The file to open for a start, or why there is nothing to open.
    pub fn source(&self) -> (r: Result<&F, StartError>)
        ensures
            match r {
                Ok(f) => self.file_name == Some(*f),
                Err(e) => self.file_name.is_none() && e == StartError::NoFileOpened,
            },
    {
        match &self.file_name {
            Some(f) => Ok(f),
            None => Err(StartError::NoFileOpened),
        }
    }

    /// Starts the pipeline on an opened capture: the state keeps `guard`
    /// and the worker runs. Anything else than an opened capture of a
    /// chosen file is refused, and the state stays as it is.
    pub fn run_process(&mut self, probe: Probe, guard: G) -> (r: Result<(), StartError>)
        ensures
            r == old(self).start_outcome(probe),
            r.is_err() ==> *final(self) == *old(self),
            r.is_ok() ==> *final(self) == (GuiState {
                phase: Phase::Running,
                stop_guard: Some(guard),
                ..*old(self)
            }),
    {
        if self.file_name.is_none() {
            return Err(StartError::NoFileOpened);
        }
        match probe {
            Probe::NotText => Err(StartError::InvalidPath),
            Probe::Unopened => Err(StartError::InvalidVideoFile),
            Probe::Opened => {
                self.stop_guard = Some(guard);
                self.phase = Phase::Running;
                Ok(())
            },
        }
    }

    /// Stops the pipeline: the guard is released, which the worker sees
    /// at its next frame.
    pub fn on_stop(&mut self)
        ensures
            *final(self) == (GuiState {
                phase: Phase::Stopped,
                stop_guard: None,
                ..*old(self)
            }),
    {
        self.stop_guard = None;
        self.phase = Phase::Stopped;
    }

    /// The number of frames shown since the last call, which it sets
    /// back to zero.
    pub fn on_calc_fps(&mut self) -> (fps: usize)
        ensures
            fps == old(self).frame_counter,
            *final(self) == (GuiState { frame_counter: 0, ..*old(self) }),
    {
        let fps = self.frame_counter;
        self.frame_counter = 0;
        fps
    }

    /// Takes an event of the worker in. A frame is counted and handed on
    /// for display. A failure is final: the pipeline is errored and the
    /// guard released.
    pub fn on_event(&mut self, event: GuiEvent) -> (shown: Option<Frame>)
        requires
            event is Frame ==> old(self).frame_counter < usize::MAX,
        ensures
            match event {
                GuiEvent::Frame(frame) => shown == Some(frame) && *final(self) == (GuiState {
                    frame_counter: (old(self).frame_counter + 1) as usize,
                    ..*old(self)
                }),
                GuiEvent::Error(_) => shown.is_none() && *final(self) == (GuiState {
                    phase: Phase::Errored,
                    stop_guard: None,
                    ..*old(self)
                }),
            },
    {
        match event {
            GuiEvent::Frame(frame) => {
                self.frame_counter = self.frame_counter + 1;
                Some(frame)
            },
            GuiEvent::Error(_) => {
                self.stop_guard = None;
                self.phase = Phase::Errored;
                None
            },
        }
    }
}

/// How a worker ended.
#[derive(Clone, Debug, PartialEq, Eq)]
pub enum WorkerEnd {
    /// The source ran out of frames, or the guard was released.
    Finished,
    /// The worker returned this failure.
    Failed(String),
    /// The worker ended unexpectedly; the text says how.
    Panicked(String),
}

/// What the watchdog sends to the display when the worker has ended:
/// nothing after a regular end, else the failure as a final event.
pub fn watchdog(end: WorkerEnd) -> (r: Option<GuiEvent>)
    ensures
        match end {
            WorkerEnd::Finished => r.is_none(),
            WorkerEnd::Failed(text) => r == Some(GuiEvent::Error(text)),
            WorkerEnd::Panicked(text) => r == Some(GuiEvent::Error(text)),
        },
{
    match end {
        WorkerEnd::Finished => None,
        WorkerEnd::Failed(text) => Some(GuiEvent::Error(text)),
        WorkerEnd::Panicked(text) => Some(GuiEvent::Error(text)),
    }
}

/// What the worker does with a frame once the detector is done with it.
#[derive(Clone, Copy, Debug, PartialEq, Eq, Structural)]
pub enum Delivery {
    /// Send the frame to the display.
    Send,
    /// Leave the loop without sending.
    Stop,
}

/// The worker's own state: how many frames it has read.
#[derive(Clone, Debug, PartialEq, Eq)]
pub struct Worker {
    frame_idx: u64,
}

impl Worker {
    /// The number of frames read so far.
    pub closed spec fn frames(&self) -> nat {
        self.frame_idx as nat
    }

    /// A worker that has read nothing yet.
    pub fn new() -> (r: Worker)
        ensures
            r.frames() == 0,
    {
        Worker { frame_idx: 0 }
    }

    /// The number of frames read so far.
    pub fn count(&self) -> (r: u64)
        ensures
            r == self.frames(),
    {
        self.frame_idx
    }

    /// Counts a frame that was read and gives its number, from 1; the
    /// frame is due at the start instant plus that number of frame times.
    pub fn frame_read(&mut self) -> (idx: u64)
        requires
            old(self).frames() < u64::MAX,
        ensures
            final(self).frames() == old(self).frames() + 1,
            idx == final(self).frames(),
    {
        self.frame_idx = self.frame_idx + 1;
        self.frame_idx
    }

    /// Whether the detector runs on the frame: only while the frame is
    /// not yet due. A frame that is due is skipped, and the worker reads
    /// on to catch up.
    pub fn admits(now: u128, due: u128) -> (r: bool)
        ensures
            r == (now < due),
    {
        now < due
    }

    /// What becomes of a frame once the detector is done with it: while
    /// it is not yet due the worker sleeps the time that is left and then
    /// delivers it; a frame that is due by then is dropped (`None`).
    pub fn nap(now: u128, due: u128) -> (r: Option<u128>)
        ensures
            now < due ==> r == Some((due - now) as u128),
            now >= due ==> r.is_none(),
    {
        if now < due {
            Some(due - now)
        } else {
            None
        }
    }

    /// Whether a frame that is in time is sent: the worker leaves the loop
    /// once nobody holds the guard any more.
    pub fn deliver(strong_count: usize) -> (r: Delivery)
        ensures
            r == (if strong_count == 0 {
                Delivery::Stop
            } else {
                Delivery::Send
            }),
    {
        if strong_count == 0 {
            Delivery::Stop
        } else {
            Delivery::Send
        }
    }
}

/// Position of sample `c` of the pixel at row `x`, column `y` in a packed
/// buffer of three bytes per pixel.
pub open spec fn packed(width: nat, x: int, y: int, c: int) -> int {
    (x * width + y) * 3 + c
}

/// Turns a packed frame of blue, green, red samples into an RGB frame.
pub fn convert_img(height: usize, width: usize, bgr: &Vec<u8>) -> (frame: Frame)
    requires
        bgr@.len() == height * width * 3,
        width * 3 <= usize::MAX,
    ensures
        frame.wf(),
        frame.rows() == height,
        frame.cols() == width,
        frame.bytes().len() == bgr@.len(),
        forall|x: int, y: int, c: int|
            0 <= x < height && 0 <= y < width && 0 <= c < 3 ==> #[trigger] frame.bytes()[packed(
                width as nat,
                x,
                y,
                c,
            )] == bgr@[packed(width as nat, x, y, 2 - c)],
{
    let n = bgr.len();
    let mut data: Vec<u8> = Vec::new();
    let mut i: usize = 0;
    while i < n
        invariant
            i <= n,
            n == bgr@.len(),
            i % 3 == 0,
            n % 3 == 0,
            data@.len() == i,
            forall|p: int, c: int|
                0 <= p && 0 <= c < 3 && p * 3 + c < i ==> #[trigger] data@[p * 3 + c] == bgr@[p * 3
                    + (2 - c)],
        decreases n - i,
    {
        let b = bgr[i];
        let g = bgr[i + 1];
        let r = bgr[i + 2];
        let ghost before = data@;
        data.push(r);
        data.push(g);
        data.push(b);
        proof {
            let q = i as int / 3;
            assert(i == q * 3);
            assert forall|p: int, c: int| 0 <= p && 0 <= c < 3 && p * 3 + c < i + 3 implies #[trigger] data@[p
                * 3 + c] == bgr@[p * 3 + (2 - c)] by {
                if p * 3 + c < i {
                    assert(data@[p * 3 + c] == before[p * 3 + c]);
                } else {
                    assert(p == q);
                }
            }
        }
        i += 3;
    }
    proof {
        assert(height * width * 3 == height * (width * 3)) by (nonlinear_arith);
    }
    proof {
        assert forall|x: int, y: int, c: int|
            0 <= x < height && 0 <= y < width && 0 <= c < 3 implies #[trigger] data@[packed(
            width as nat,
            x,
            y,
            c,
        )] == bgr@[packed(width as nat, x, y, 2 - c)] by {
            crate::array::lemma_offset3_bound(height as nat, width as nat, 3, x, y, c);
            let p = x * width + y;
            assert(data@[p * 3 + c] == bgr@[p * 3 + (2 - c)]);
        }
    }
    let frame = Frame::from_rgb(height, width, data);
    frame.unwrap()
}

} // verus!
