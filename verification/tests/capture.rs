use gameperf::capture::{capture_step, CaptureAction, CaptureState, CaptureStatus, ChannelMsg};

#[test]
fn start_then_stop_before_first_tick_stays_idle_and_never_samples() {
    let mut state = CaptureState::new();
    let msgs = vec![
        ChannelMsg::StartCapture("target".to_string()),
        ChannelMsg::StopCapture,
    ];
    let action = capture_step(&mut state, &msgs);
    assert_eq!(state.status, CaptureStatus::Idle);
    assert_eq!(action, CaptureAction::SleepShort);
}

#[test]
fn fresh_state_only_waits() {
    let mut state = CaptureState::new();
    let action = capture_step(&mut state, &vec![]);
    assert_eq!(state.status, CaptureStatus::Idle);
    assert_eq!(action, CaptureAction::SleepShort);
}

#[test]
fn start_samples_the_target() {
    let mut state = CaptureState::new();
    let msgs = vec![ChannelMsg::StartCapture("com.example.app".to_string())];
    let action = capture_step(&mut state, &msgs);
    assert_eq!(state.status, CaptureStatus::Running);
    assert_eq!(state.target, "com.example.app");
    assert_eq!(action, CaptureAction::SampleThenSleepLong);
}

#[test]
fn running_with_empty_target_is_a_no_op_tick() {
    let mut state = CaptureState::new();
    let msgs = vec![ChannelMsg::StartCapture(String::new())];
    let action = capture_step(&mut state, &msgs);
    assert_eq!(state.status, CaptureStatus::Running);
    assert_eq!(action, CaptureAction::SleepLong);
}

#[test]
fn starting_a_new_target_overwrites_in_place() {
    let mut state = CaptureState::new();
    capture_step(&mut state, &vec![ChannelMsg::StartCapture("one".to_string())]);
    let action = capture_step(&mut state, &vec![ChannelMsg::StartCapture("two".to_string())]);
    assert_eq!(state.target, "two");
    assert_eq!(action, CaptureAction::SampleThenSleepLong);
}

#[test]
fn stop_keeps_target_but_idles() {
    let mut state = CaptureState::new();
    capture_step(&mut state, &vec![ChannelMsg::StartCapture("one".to_string())]);
    let action = capture_step(&mut state, &vec![ChannelMsg::StopCapture]);
    assert_eq!(state.status, CaptureStatus::Idle);
    assert_eq!(state.target, "one");
    assert_eq!(action, CaptureAction::SleepShort);
}

#[test]
fn no_pending_message_keeps_running() {
    let mut state = CaptureState::new();
    capture_step(&mut state, &vec![ChannelMsg::StartCapture("one".to_string())]);
    let action = capture_step(&mut state, &vec![]);
    assert_eq!(state.status, CaptureStatus::Running);
    assert_eq!(action, CaptureAction::SampleThenSleepLong);
}
