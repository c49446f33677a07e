use skateboard_slope::model::obj_triangles;

#[test]
fn triangles_reverse_winding() {
    let vertices = vec!['a', 'b', 'c', 'd'];
    let indices: Vec<u16> = vec![0, 1, 2, 3, 2, 1, 0];
    assert_eq!(obj_triangles(&vertices, &indices), vec![('c', 'b', 'a'), ('b', 'c', 'd')]);
    assert_eq!(obj_triangles(&vertices, &vec![]), vec![]);
}
