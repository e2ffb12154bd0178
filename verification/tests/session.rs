use img_process::session::{job_events, Effect, Elapsed, GuiEvent, GuiState, JobEnd, Refusal};

#[test]
fn a_fresh_state_has_no_images_and_fits_them_to_the_window() {
    let st: GuiState<u32> = GuiState::default();
    assert!(st.image_input.is_none());
    assert!(st.image_output.is_none());
    assert!(!st.processing);
    assert!(st.auto_shrink);
    assert!(!st.check_processing());
}

#[test]
fn a_job_without_input_is_refused() {
    let mut st: GuiState<u32> = GuiState::default();
    assert_eq!(st.begin_job(), Err(Refusal::NoInput));
    assert!(!st.processing);
    assert_eq!(Refusal::NoInput.message(), "Error: No input image");
}

#[test]
fn a_second_trigger_is_refused_while_a_job_runs() {
    let mut st: GuiState<u32> = GuiState::default();
    assert!(st.load_input(Some(7)));
    assert_eq!(st.begin_job(), Ok(()));
    assert!(st.check_processing());
    assert_eq!(st.begin_job(), Err(Refusal::Busy));
    assert_eq!(Refusal::Busy.message(), "Error: Anothing job is running. Please wait.");
    // The refused trigger left everything as it was.
    assert!(st.processing);
    assert_eq!(st.image_input, Some(7));
    assert_eq!(st.image_output, None);
    // The result of the job in flight arrives untouched.
    assert!(matches!(st.on_gui_event(GuiEvent::ImageOutput(8)), Effect::ShowOutput));
    assert_eq!(st.image_output, Some(8));
    assert_eq!(st.image_input, Some(7));
    assert!(!st.processing);
    // And a new job can start.
    assert_eq!(st.begin_job(), Ok(()));
}

#[test]
fn a_failed_job_frees_the_state() {
    let mut st: GuiState<u32> = GuiState::default();
    st.load_input(Some(1));
    assert_eq!(st.begin_job(), Ok(()));
    assert!(matches!(st.on_gui_event(GuiEvent::WorkerError), Effect::Nothing));
    assert!(!st.processing);
    assert_eq!(st.image_output, None);
    assert_eq!(st.begin_job(), Ok(()));
}

#[test]
fn a_log_line_changes_nothing() {
    let mut st: GuiState<u32> = GuiState::default();
    st.load_input(Some(1));
    st.begin_job().unwrap();
    match st.on_gui_event(GuiEvent::Log("Running processor...\n".to_string())) {
        Effect::AppendLog(text) => assert_eq!(text, "Running processor...\n"),
        _ => panic!("a log line was not appended"),
    }
    assert!(st.processing);
    assert_eq!(st.image_input, Some(1));
    assert_eq!(st.image_output, None);
}

#[test]
fn images_stay_put_while_a_job_runs() {
    let mut st: GuiState<u32> = GuiState::default();
    st.load_input(Some(1));
    st.begin_job().unwrap();
    assert!(!st.load_input(Some(2)));
    assert_eq!(st.image_input, Some(1));
    assert!(!st.load_input(None));
    assert_eq!(st.image_input, Some(1));
    assert!(!st.swap_img());
    assert_eq!(st.image_input, Some(1));
    assert_eq!(st.image_output, None);
}

#[test]
fn swap_exchanges_input_and_output() {
    let mut st: GuiState<u32> = GuiState::default();
    st.load_input(Some(1));
    assert!(st.swap_img());
    assert_eq!(st.image_input, None);
    assert_eq!(st.image_output, Some(1));
    st.load_input(Some(2));
    assert!(st.swap_img());
    assert_eq!(st.image_input, Some(1));
    assert_eq!(st.image_output, Some(2));
}

#[test]
fn a_failed_load_clears_the_input() {
    let mut st: GuiState<u32> = GuiState::default();
    st.load_input(Some(1));
    assert!(st.load_input(None));
    assert_eq!(st.image_input, None);
    assert_eq!(st.begin_job(), Err(Refusal::NoInput));
}

#[test]
fn resize_redraws_when_forced_or_fitting() {
    let mut st: GuiState<u32> = GuiState::default();
    assert!(st.on_resize(false));
    assert!(st.on_resize(true));
    st.toggle_auto_shrink();
    assert!(!st.auto_shrink);
    assert!(!st.on_resize(false));
    assert!(st.on_resize(true));
    st.toggle_auto_shrink();
    assert!(st.auto_shrink);
}

#[test]
fn elapsed_splits_into_groups_of_three_digits() {
    let e = Elapsed::from_nanos(12_345_678_901);
    assert_eq!(e, Elapsed { secs: 12, millis: 345, micros: 678, nanos: 901 });
    assert_eq!(Elapsed::from_nanos(0), Elapsed { secs: 0, millis: 0, micros: 0, nanos: 0 });
    assert_eq!(Elapsed::from_nanos(999), Elapsed { secs: 0, millis: 0, micros: 0, nanos: 999 });
    assert_eq!(Elapsed::from_nanos(1_000), Elapsed { secs: 0, millis: 0, micros: 1, nanos: 0 });
    assert_eq!(
        Elapsed::from_nanos(999_999_999),
        Elapsed { secs: 0, millis: 999, micros: 999, nanos: 999 }
    );
    assert_eq!(
        Elapsed::from_nanos(1_000_000_000),
        Elapsed { secs: 1, millis: 0, micros: 0, nanos: 0 }
    );
    let e = Elapsed::from_nanos(u128::MAX);
    assert_eq!(e.secs, u128::MAX / 1_000_000_000);
    assert_eq!(e.nanos, (u128::MAX % 1_000) as u16);
}

#[test]
fn a_finished_job_sends_its_image_and_no_line() {
    assert_eq!(job_events(JobEnd::Done(5u32)), (None, GuiEvent::ImageOutput(5)));
}

#[test]
fn a_failed_job_sends_a_line_and_a_worker_error() {
    assert_eq!(
        job_events::<u32>(JobEnd::Failed("Error: Kernel size should be odd number".to_string())),
        (Some("Error: Kernel size should be odd number".to_string()), GuiEvent::WorkerError)
    );
    assert_eq!(
        job_events::<u32>(JobEnd::Panicked("Error: Worker panicked: Any".to_string())),
        (Some("Error: Worker panicked: Any".to_string()), GuiEvent::WorkerError)
    );
}

#[test]
fn every_end_of_a_job_frees_the_state() {
    for end in [
        JobEnd::Done(9u32),
        JobEnd::Failed("Error: x".to_string()),
        JobEnd::Panicked("Error: y".to_string()),
    ] {
        let mut st: GuiState<u32> = GuiState::default();
        st.load_input(Some(1));
        st.begin_job().unwrap();
        let done = matches!(end, JobEnd::Done(_));
        let (_, event) = job_events(end);
        st.on_gui_event(event);
        assert!(!st.processing);
        assert_eq!(st.image_input, Some(1));
        assert_eq!(st.image_output, if done { Some(9) } else { None });
    }
}
