use skateboard_slope::engine::{Color, Error, Event, Key, KeySet, System};

#[test]
fn hex_color_channels() {
    assert_eq!(Color::Hex(0x12345678).rgb(), (0x34, 0x56, 0x78));
    assert_eq!(Color::Hex(0xff8000).rgb(), (255, 128, 0));
}

#[test]
fn named_color_channels() {
    assert_eq!(Color::White.rgb(), (255, 255, 255));
    assert_eq!(Color::Green.rgb(), (0, 255, 0));
    assert_eq!(Color::Red.rgb(), (255, 0, 0));
    assert_eq!(Color::Cyan.rgb(), (0, 255, 255));
    assert_eq!(Color::Black.rgb(), (0, 0, 0));
}

#[test]
fn key_set_behaves_as_a_set() {
    let mut keys = KeySet::new();
    assert!(!keys.contains(&Key::W));
    assert!(keys.insert(Key::W));
    assert!(!keys.insert(Key::W));
    assert!(keys.contains(&Key::W));
    assert!(keys.insert(Key::A));
    assert!(keys.remove(&Key::W));
    assert!(!keys.remove(&Key::W));
    assert!(!keys.contains(&Key::W));
    assert!(keys.contains(&Key::A));
}

#[test]
fn events_press_and_release_keys() {
    let mut keys = KeySet::new();
    keys.apply(Event::KeyDown { key: Key::LShift });
    assert!(keys.contains(&Key::LShift));
    keys.apply(Event::KeyDown { key: Key::LShift });
    keys.apply(Event::KeyUp { key: Key::LShift });
    assert!(!keys.contains(&Key::LShift));
}

struct Quiet;

impl System for Quiet {}

#[test]
fn default_system_hooks_succeed() {
    let s = Quiet;
    assert_eq!(s.on_add(), Ok(()));
    assert_eq!(s.on_update(), Ok(()));
    assert_eq!(s.on_remove(), Ok(()));
    let e = Error { message: String::from("x") };
    assert_eq!(e.message, "x");
}
