use skateboard_slope::textures::TextureHandler;

#[test]
fn handles_are_fresh_and_get_gives_back() {
    let mut t: TextureHandler<String> = TextureHandler::new();
    let a = t.insert(String::from("a"));
    let b = t.insert(String::from("b"));
    assert_eq!((a, b), (0, 1));
    assert_eq!(t.get(a), "a");
    assert_eq!(t.get(b), "b");
    t.remove(a);
    let c = t.insert(String::from("c"));
    assert_eq!(c, 2);
    assert_eq!(t.get(b), "b");
    assert_eq!(t.get(c), "c");
}
