use skateboard_slope::engine::{Event, Key};
use skateboard_slope::frame::{input_action, FrameClock, FrameOutcome, InputAction, InputEvent, Pressed};

#[test]
fn quitting_and_escape_stop() {
    assert_eq!(input_action(InputEvent::Quit), InputAction::Stop);
    assert_eq!(input_action(InputEvent::KeyDown(Pressed::Escape)), InputAction::Stop);
    assert_eq!(input_action(InputEvent::KeyUp(Pressed::Escape)), InputAction::Ignore);
}

#[test]
fn game_keys_are_forwarded() {
    assert_eq!(
        input_action(InputEvent::KeyDown(Pressed::Game(Key::Left))),
        InputAction::Forward(Event::KeyDown { key: Key::Left })
    );
    assert_eq!(
        input_action(InputEvent::KeyUp(Pressed::Game(Key::D))),
        InputAction::Forward(Event::KeyUp { key: Key::D })
    );
    assert_eq!(input_action(InputEvent::KeyDown(Pressed::Unmapped)), InputAction::Ignore);
    assert_eq!(input_action(InputEvent::Other), InputAction::Ignore);
}

#[test]
fn short_frames_sleep_up_to_the_target() {
    let mut clock = FrameClock::new(16_666_666);
    assert_eq!(clock.end_frame(10_000_000), FrameOutcome { fps_report: None, sleep_nanos: 6_666_666 });
    assert_eq!(clock.end_frame(20_000_000), FrameOutcome { fps_report: None, sleep_nanos: 0 });
}

#[test]
fn reports_frame_count_after_a_second() {
    let mut clock = FrameClock::new(0);
    for _ in 0..4 {
        assert_eq!(clock.end_frame(250_000_000).fps_report, None);
    }
    assert_eq!(clock.end_frame(1).fps_report, Some(5));
    assert_eq!(clock.end_frame(1_000_000_000).fps_report, None);
    assert_eq!(clock.end_frame(1).fps_report, Some(2));
}
