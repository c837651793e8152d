use meshobj::parse_obj;
use meshobj::MeshOBJ;
use meshobj::Vec2;
use meshobj::Vec3;

fn v3(x: &str, y: &str, z: &str) -> Vec3 {
    Vec3 { x: String::from(x), y: String::from(y), z: String::from(z) }
}

fn v2(u: &str, v: &str) -> Vec2 {
    Vec2 { u: String::from(u), v: String::from(v) }
}

#[test]
fn new_empty_has_nothing() {
    let m = MeshOBJ::new_empty();
    assert_eq!(m.positions.len(), 0);
    assert_eq!(m.normals.len(), 0);
    assert_eq!(m.uvs.len(), 0);
    assert_eq!(m.colors.len(), 0);
    assert_eq!(m.faces.len(), 0);
}

#[test]
fn flatten_lengths_and_index_buffer() {
    let mut m = MeshOBJ::new_empty();
    m.positions.push(v3("0", "0", "0"));
    m.positions.push(v3("1", "0", "0"));
    m.normals.push(v3("0", "0", "1"));
    m.uvs.push(v2("0", "1"));
    m.faces.push((1, 1, 1));
    m.faces.push((2, 1, 1));
    m.faces.push((1, 1, 1));
    let (verts, idx) = m.as_opengl_format();
    assert_eq!(verts.len(), 8 * 3);
    assert_eq!(idx.len(), 3);
    assert_eq!(idx, vec![0, 1, 2]);
}

#[test]
fn flatten_interleaves_position_normal_uv() {
    let mut m = MeshOBJ::new_empty();
    m.positions.push(v3("1", "2", "3"));
    m.normals.push(v3("4", "5", "6"));
    m.uvs.push(v2("7", "8"));
    m.faces.push((1, 1, 1));
    let (verts, idx) = m.as_opengl_format();
    let expect = ["1", "2", "3", "4", "5", "6", "7", "8"];
    for (i, e) in expect.iter().enumerate() {
        assert_eq!(verts[i], *e);
    }
    assert_eq!(idx, vec![0]);
}

#[test]
fn serialize_one_position() {
    let mut m = MeshOBJ::new_empty();
    m.positions.push(v3("1.5", "2", "3"));
    let text = m.to_obj_text();
    assert_eq!(text, "v     1.5       2       3\nf ");
}

#[test]
fn serialize_pads_and_terminates_lines() {
    let mut m = MeshOBJ::new_empty();
    m.uvs.push(v2("0.5", "0.25"));
    m.normals.push(v3("0", "0", "1"));
    let text = m.to_obj_text();
    assert_eq!(text, "vt     0.5    0.25 \nvn       0       0       1\nf ");
}

#[test]
fn serialize_emits_color_block_only_when_present() {
    let mut m = MeshOBJ::new_empty();
    m.positions.push(v3("1", "2", "3"));
    m.colors.push(v3("0.5", "0.5", "0.5"));
    let text = m.to_obj_text();
    assert_eq!(
        text,
        "v       1       2       3\ncolor     0.5     0.5     0.5\nf "
    );
}

#[test]
fn serialize_face_entries_in_six_columns() {
    let mut m = MeshOBJ::new_empty();
    m.faces.push((1, 2, 3));
    let text = m.to_obj_text();
    assert_eq!(text, "f      1/     2/     3 \nf ");
}

#[test]
fn serialized_long_index_widens_past_column() {
    let mut m = MeshOBJ::new_empty();
    m.faces.push((1234567, 1, 1));
    let text = m.to_obj_text();
    assert_eq!(text, "f 1234567/     1/     1 \nf ");
}

#[test]
fn round_trip_reproduces_channel_values() {
    let mut m = MeshOBJ::new_empty();
    m.positions.push(v3("1.5", "-2.25", "0.125"));
    m.positions.push(v3("3", "4", "5"));
    m.uvs.push(v2("0.5", "0.25"));
    m.normals.push(v3("0", "0", "1"));
    m.colors.push(v3("0.5", "0.5", "0.5"));
    let text = m.to_obj_text();
    let source = format!("o roundtrip\n{}", text);
    let parsed = parse_obj(source).unwrap();
    assert_eq!(parsed.len(), 1);
    let p = &parsed[0];
    assert_eq!(p.positions.len(), 2);
    assert_eq!(p.uvs.len(), 1);
    assert_eq!(p.normals.len(), 1);
    // the stored tokens come back exactly, so the values match well within
    // three decimal places
    assert_eq!(p.positions[0].x, "1.5");
    assert_eq!(p.positions[0].y, "-2.25");
    assert_eq!(p.positions[1].z, "5");
    assert_eq!(p.uvs[0].u, "0.5");
    assert_eq!(p.normals[0].z, "1");
    let back: f32 = p.positions[0].y.parse().unwrap();
    assert!((back - (-2.25f32)).abs() < 1e-3);
    let back_u: f32 = p.uvs[0].v.parse().unwrap();
    assert!((back_u - 0.25f32).abs() < 1e-3);
    let back_n: f32 = p.normals[0].z.parse().unwrap();
    assert!((back_n - 1.0f32).abs() < 1e-3);
    // the colour block comes back as an unrecognized keyword and is skipped
    assert_eq!(p.colors.len(), 0);
}
