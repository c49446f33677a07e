//! The decisions of the window loop: what each input event means for the
//! game, and the per-frame bookkeeping of the frame-rate counter and the
//! pause that caps the frame rate.
use vstd::prelude::*;
use crate::engine::{Event, Key};

verus! {

/// A key as the window reports it: Escape, one of the game's keys, or another.
#[derive(Clone, Copy, PartialEq, Eq, Structural, Debug)]
pub enum Pressed {
    Escape,
    Game(Key),
    Unmapped,
}

/// An event as the window reports it.
#[derive(Clone, Copy, PartialEq, Eq, Structural, Debug)]
pub enum InputEvent {
    Quit,
    KeyDown(Pressed),
    KeyUp(Pressed),
    Other,
}

/// What the window loop does with an event.
#[derive(Clone, Copy, PartialEq, Eq, Structural, Debug)]
pub enum InputAction {
    /// Leave the loop at once.
    Stop,
    /// Hand the event to the game.
    Forward(Event),
    /// Drop the event.
    Ignore,
}

/// The action for each event: closing the window or pressing Escape stops
/// the loop; pressing or releasing one of the game's keys reaches the game;
/// everything else, releasing Escape included, is dropped.
pub open spec fn spec_input_action(event: InputEvent) -> InputAction {
    match event {
        InputEvent::Quit => InputAction::Stop,
        InputEvent::KeyDown(Pressed::Escape) => InputAction::Stop,
        InputEvent::KeyDown(Pressed::Game(key)) => InputAction::Forward(Event::KeyDown { key }),
        InputEvent::KeyUp(Pressed::Game(key)) => InputAction::Forward(Event::KeyUp { key }),
        _ => InputAction::Ignore,
    }
}

/// The window loop stops only when the window is closed or Escape is
/// pressed; a key event of a game key reaches the game as the same press or
/// release of that key; every other event, any release among them, is
/// dropped.
pub proof fn lemma_input_actions(event: InputEvent)
    ensures
        (spec_input_action(event) == InputAction::Stop)
            <==> (event == InputEvent::Quit || event == InputEvent::KeyDown(Pressed::Escape)),
        forall|key: Key| #![auto]
            (spec_input_action(event) == InputAction::Forward(Event::KeyDown { key }))
                <==> event == InputEvent::KeyDown(Pressed::Game(key)),
        forall|key: Key| #![auto]
            (spec_input_action(event) == InputAction::Forward(Event::KeyUp { key }))
                <==> event == InputEvent::KeyUp(Pressed::Game(key)),
        (spec_input_action(event) == InputAction::Ignore) <==> (
            event == InputEvent::Other
            || event == InputEvent::KeyDown(Pressed::Unmapped)
            || event == InputEvent::KeyUp(Pressed::Unmapped)
            || event == InputEvent::KeyUp(Pressed::Escape)
        ),
{
}

/// Decides what the window loop does with `event`.
pub fn input_action(event: InputEvent) -> (r: InputAction)
    ensures
        r == spec_input_action(event),
        (r == InputAction::Stop) <==> (event == InputEvent::Quit || event == InputEvent::KeyDown(Pressed::Escape)),
        event matches InputEvent::KeyUp(p) ==> r != InputAction::Stop,
{
    match event {
        InputEvent::Quit => InputAction::Stop,
        InputEvent::KeyDown(Pressed::Escape) => InputAction::Stop,
        InputEvent::KeyDown(Pressed::Game(key)) => InputAction::Forward(Event::KeyDown { key }),
        InputEvent::KeyUp(Pressed::Game(key)) => InputAction::Forward(Event::KeyUp { key }),
        _ => InputAction::Ignore,
    }
}

/// One second in nanoseconds: the frame-rate counter reports once more than
/// this has passed since its last report.
pub const REPORT_INTERVAL_NANOS: u64 = 1_000_000_000;

/// What to do at the end of a frame.
#[derive(Clone, Copy, PartialEq, Eq, Structural, Debug)]
pub struct FrameOutcome {
    /// The number of frames to report as the frame rate, if a report is due.
    pub fps_report: Option<u64>,
    /// How long to pause before the next frame, in nanoseconds.
    pub sleep_nanos: u64,
}

/// The frame-rate counter and the target frame length.
pub struct FrameClock {
    frame_nanos: u64,
    fps_count: u64,
    since_report_nanos: u64,
}

impl FrameClock {
    /// The target length of a frame, in nanoseconds.
    pub closed spec fn frame_length(self) -> u64 {
        self.frame_nanos
    }

    /// Frames counted since the last report.
    pub closed spec fn count(self) -> u64 {
        self.fps_count
    }

    /// Time since the last report, in nanoseconds.
    pub closed spec fn since_report(self) -> u64 {
        self.since_report_nanos
    }

    /// A clock with a target frame length of `frame_nanos`, nothing counted yet.
    pub fn new(frame_nanos: u64) -> (r: FrameClock)
        ensures
            r.frame_length() == frame_nanos,
            r.count() == 0,
            r.since_report() == 0,
    {
        FrameClock { frame_nanos, fps_count: 0, since_report_nanos: 0 }
    }

    /// Ends a frame that took `delta_nanos` since the previous one: counts
    /// the frame; once more than a second has passed since the last report,
    /// reports the count and starts counting afresh; and asks for a pause of
    /// the time that the frame fell short of the target length. The counters
    /// stop at `u64::MAX` rather than wrap.
    pub fn end_frame(&mut self, delta_nanos: u64) -> (r: FrameOutcome)
        ensures
            ({
                let count = if old(self).count() == u64::MAX { u64::MAX } else { (old(self).count() + 1) as u64 };
                let elapsed = if old(self).since_report() + delta_nanos > u64::MAX {
                    u64::MAX
                } else {
                    (old(self).since_report() + delta_nanos) as u64
                };
                if elapsed > REPORT_INTERVAL_NANOS {
                    &&& r.fps_report == Some(count)
                    &&& final(self).count() == 0
                    &&& final(self).since_report() == 0
                } else {
                    &&& r.fps_report is None
                    &&& final(self).count() == count
                    &&& final(self).since_report() == elapsed
                }
            }),
            r.sleep_nanos == (if delta_nanos < old(self).frame_length() {
                (old(self).frame_length() - delta_nanos) as u64
            } else {
                0
            }),
            final(self).frame_length() == old(self).frame_length(),
    {
        self.fps_count = self.fps_count.saturating_add(1);
        self.since_report_nanos = self.since_report_nanos.saturating_add(delta_nanos);
        let fps_report = if self.since_report_nanos > REPORT_INTERVAL_NANOS {
            let count = self.fps_count;
            self.fps_count = 0;
            self.since_report_nanos = 0;
            Some(count)
        } else {
            None
        };
        let sleep_nanos = if delta_nanos < self.frame_nanos {
            self.frame_nanos - delta_nanos
        } else {
            0
        };
        FrameOutcome { fps_report, sleep_nanos }
    }
}

} // verus!
