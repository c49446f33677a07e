use skateboard_slope::shapes::Shape;

#[test]
fn unit_cube_corners_and_faces() {
    let cube = Shape::new_cube(|c: (i8, i8, i8)| c);
    let v = cube.vertices();
    assert_eq!(v.len(), 8);
    assert_eq!(v[0], (0, 1, 0));
    assert_eq!(v[7], (1, 0, 1));
    let faces = cube.faces();
    assert_eq!(faces.len(), 12);
    assert_eq!(faces[0], ((0, 1, 0), (1, 1, 0), (0, 0, 0)));
    assert_eq!(faces[11], ((0, 0, 0), (0, 0, 1), (0, 1, 0)));
}

#[test]
fn plane_is_scaled_through_the_mapping() {
    let plane = Shape::new_plane(|c: (i8, i8, i8)| (c.0 as i32 * 10, c.1 as i32 * 10, c.2 as i32 * 3));
    assert_eq!(plane.vertices(), vec![(0, 0, 0), (0, 0, 3), (10, 0, 0), (10, 0, 3)]);
    assert_eq!(plane.faces(), vec![((0, 0, 0), (0, 0, 3), (10, 0, 0)), ((10, 0, 3), (10, 0, 0), (0, 0, 3))]);
}

#[test]
fn mapping_vertices_keeps_faces() {
    let cube = Shape::new_cube(|c: (i8, i8, i8)| (c.0 as i32, c.1 as i32, c.2 as i32));
    let moved = cube.map_vertices(|p: (i32, i32, i32)| (p.0 + 5, p.1, p.2 - 1));
    assert_eq!(moved.vertices()[1], (6, 1, -1));
    assert_eq!(moved.faces()[2], ((5, 1, -1), (5, 1, 0), (6, 1, -1)));
}
