use zap_engine::systems::effects::geometry::strip_to_triangles;

#[test]
fn geometry_strip_to_triangles_correct_count() {
    let strip = vec![0.0f32; 6 * 5]; // 6 verts, 5 floats each
    let tris = strip_to_triangles(&strip, 5);
    assert_eq!(tris.len() / 5, 12); // 4 triangles * 3 verts
}

#[test]
fn effects_strip_to_triangles_correct_count() {
    let strip = vec![0.0f32; 6 * 5];
    let tris = strip_to_triangles(&strip, 5);
    assert_eq!(tris.len() / 5, 12);
}

#[test]
fn strip_winding_alternates() {
    let strip: Vec<u32> = vec![0, 1, 2, 3, 4];
    let tris = strip_to_triangles(&strip, 1);
    assert_eq!(tris, vec![0, 1, 2, 2, 1, 3, 2, 3, 4]);
}

#[test]
fn strip_records_copied_whole() {
    let strip: Vec<u32> = vec![10, 11, 20, 21, 30, 31, 40, 41, 99];
    let tris = strip_to_triangles(&strip, 2);
    assert_eq!(tris, vec![10, 11, 20, 21, 30, 31, 30, 31, 20, 21, 40, 41]);
}

#[test]
fn short_strip_gives_nothing() {
    let strip = vec![1.0f32; 2 * 5 + 4];
    assert!(strip_to_triangles(&strip, 5).is_empty());
}
