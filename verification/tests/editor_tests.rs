use skateboard_slope::editor::{editor_main, Editor};
use skateboard_slope::engine::{Event, Key};

fn ids_and_kinds(e: &Editor<&'static str>) -> Vec<(u32, &'static str)> {
    e.objects().iter().map(|o| (o.id, o.kind)).collect()
}

#[test]
fn main_spawns_each_object_in_turn() {
    let e = editor_main(vec!["box", "plane"]);
    assert_eq!(ids_and_kinds(&e), vec![(0, "box"), (1, "plane")]);
}

#[test]
fn spawn_gives_fresh_ids_and_despawn_removes_one() {
    let mut e = editor_main(vec!["a", "b"]);
    e.spawn("c");
    assert_eq!(ids_and_kinds(&e), vec![(0, "a"), (1, "b"), (2, "c")]);
    e.despawn(1);
    assert_eq!(ids_and_kinds(&e), vec![(0, "a"), (2, "c")]);
    e.spawn("d");
    assert_eq!(ids_and_kinds(&e), vec![(0, "a"), (2, "c"), (3, "d")]);
}

#[test]
fn spawn_then_despawn_restores() {
    let mut e = editor_main(vec!["a", "b"]);
    e.spawn("x");
    e.despawn(2);
    assert_eq!(ids_and_kinds(&e), vec![(0, "a"), (1, "b")]);
}

#[test]
fn camera_follows_held_keys() {
    let mut e: Editor<u8> = Editor::new();
    assert_eq!(e.camera_direction(), 0);
    e.event(Event::KeyDown { key: Key::Right });
    assert_eq!(e.camera_direction(), -1);
    e.event(Event::KeyDown { key: Key::Left });
    assert_eq!(e.camera_direction(), 1);
    e.event(Event::KeyUp { key: Key::Left });
    assert_eq!(e.camera_direction(), -1);
    e.event(Event::KeyUp { key: Key::Right });
    assert_eq!(e.camera_direction(), 0);
}
