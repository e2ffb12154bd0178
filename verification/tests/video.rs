use img_process::frame::Frame;
use img_process::video::{
    convert_img, watchdog, Delivery, GuiEvent, GuiState, Phase, Probe, StartError, Worker,
    WorkerEnd,
};

type State = GuiState<String, u8>;

#[test]
fn convert_swaps_blue_and_red() {
    // Two rows of one pixel.
    let frame = convert_img(2, 1, &vec![1, 2, 3, 4, 5, 6]);
    assert_eq!(frame.height(), 2);
    assert_eq!(frame.width(), 1);
    assert_eq!(frame.row_stride(), 3);
    assert_eq!(frame.data(), &vec![3, 2, 1, 6, 5, 4]);
}

#[test]
fn convert_of_no_pixels_is_an_empty_frame() {
    let frame = convert_img(0, 4, &Vec::new());
    assert_eq!(frame.height(), 0);
    assert_eq!(frame.width(), 4);
    assert_eq!(frame.row_stride(), 12);
    assert!(frame.into_data().is_empty());
}

#[test]
fn frame_needs_three_bytes_per_pixel() {
    assert!(Frame::from_rgb(2, 2, vec![0; 12]).is_some());
    assert!(Frame::from_rgb(2, 2, vec![0; 11]).is_none());
    assert!(Frame::from_rgb(2, 2, vec![0; 13]).is_none());
    assert!(Frame::from_rgb(0, 0, Vec::new()).is_some());
    assert!(Frame::from_rgb(usize::MAX, usize::MAX, Vec::new()).is_none());
    assert!(Frame::from_rgb(0, usize::MAX, Vec::new()).is_none());
}

#[test]
fn starting_without_a_file_is_refused() {
    let mut st = State::default();
    assert_eq!(st.phase, Phase::Idle);
    assert_eq!(st.source().err(), Some(StartError::NoFileOpened));
    assert_eq!(st.run_process(Probe::Opened, 1), Err(StartError::NoFileOpened));
    assert_eq!(st.phase, Phase::Idle);
    assert_eq!(st.stop_guard, None);
    assert_eq!(StartError::NoFileOpened.message(), "No file opened");
}

#[test]
fn starting_on_a_bad_file_is_refused() {
    let mut st = State::default();
    st.select_src(Some("clip.mp4".to_string()));
    assert_eq!(st.source().ok(), Some(&"clip.mp4".to_string()));
    assert_eq!(st.run_process(Probe::NotText, 1), Err(StartError::InvalidPath));
    assert_eq!(st.run_process(Probe::Unopened, 1), Err(StartError::InvalidVideoFile));
    assert_eq!(st.phase, Phase::Idle);
    assert!(!st.is_running());
    assert_eq!(st.stop_guard, None);
    assert_eq!(StartError::InvalidPath.message(), "Invalid path");
    assert_eq!(StartError::InvalidVideoFile.message(), "Invalid video file");
}

#[test]
fn the_pipeline_runs_until_it_is_stopped() {
    let mut st = State::default();
    st.select_src(Some("clip.mp4".to_string()));
    assert_eq!(st.run_process(Probe::Opened, 9), Ok(()));
    assert_eq!(st.phase, Phase::Running);
    assert!(st.is_running());
    assert_eq!(st.stop_guard, Some(9));
    st.on_stop();
    assert_eq!(st.phase, Phase::Stopped);
    assert_eq!(st.stop_guard, None);
    assert_eq!(st.file_name, Some("clip.mp4".to_string()));
}

#[test]
fn a_worker_failure_is_final() {
    let mut st = State::default();
    st.select_src(Some("clip.mp4".to_string()));
    st.run_process(Probe::Opened, 9).unwrap();
    assert!(st.on_event(GuiEvent::Error("decoder gave up".to_string())).is_none());
    assert_eq!(st.phase, Phase::Errored);
    assert_eq!(st.stop_guard, None);
}

#[test]
fn frames_are_counted_between_readings() {
    let mut st = State::default();
    st.select_src(Some("clip.mp4".to_string()));
    st.run_process(Probe::Opened, 9).unwrap();
    for _ in 0..3 {
        let frame = Frame::from_rgb(1, 1, vec![1, 2, 3]).unwrap();
        let shown = st.on_event(GuiEvent::Frame(frame)).unwrap();
        assert_eq!(shown.data(), &vec![1, 2, 3]);
    }
    assert_eq!(st.frame_counter, 3);
    assert_eq!(st.on_calc_fps(), 3);
    assert_eq!(st.frame_counter, 0);
    assert_eq!(st.on_calc_fps(), 0);
    assert_eq!(st.phase, Phase::Running);
}

#[test]
fn the_watchdog_reports_failures_only() {
    assert!(watchdog(WorkerEnd::Finished).is_none());
    match watchdog(WorkerEnd::Failed("read error".to_string())) {
        Some(GuiEvent::Error(text)) => assert_eq!(text, "read error"),
        _ => panic!("a failure was swallowed"),
    }
    match watchdog(WorkerEnd::Panicked("Worker panicked: Any".to_string())) {
        Some(GuiEvent::Error(text)) => assert_eq!(text, "Worker panicked: Any"),
        _ => panic!("a panic was swallowed"),
    }
}

#[test]
fn the_worker_counts_frames_from_one() {
    let mut w = Worker::new();
    assert_eq!(w.count(), 0);
    assert_eq!(w.frame_read(), 1);
    assert_eq!(w.frame_read(), 2);
    assert_eq!(w.frame_read(), 3);
    assert_eq!(w.count(), 3);
}

#[test]
fn a_frame_that_is_due_is_skipped() {
    assert!(Worker::admits(99, 100));
    assert!(!Worker::admits(100, 100));
    assert!(!Worker::admits(101, 100));
}

#[test]
fn the_worker_sleeps_until_the_frame_is_due() {
    assert_eq!(Worker::nap(40, 100), Some(60));
    assert_eq!(Worker::nap(100, 100), None);
    assert_eq!(Worker::nap(130, 100), None);
    assert_eq!(Worker::nap(0, u128::MAX), Some(u128::MAX));
}

#[test]
fn the_worker_stops_once_the_guard_is_released() {
    assert_eq!(Worker::deliver(0), Delivery::Stop);
    assert_eq!(Worker::deliver(1), Delivery::Send);
    assert_eq!(Worker::deliver(5), Delivery::Send);
}
