//! The mesh model: one parsed sub-object, its flattening into an interleaved
//! vertex buffer, and its serialization back to source text.
use crate::num::pad_left;
use crate::num::spaces;
use crate::num::u32_col6;
use vstd::prelude::*;
use vstd::string::StrSliceExecFns;
use vstd::string::StringExecFns;

verus! {

/// A three-component record; each component is a scalar kept as its text.
#[derive(Debug)]
pub struct Vec3 {
    pub x: String,
    pub y: String,
    pub z: String,
}

impl View for Vec3 {
    type V = (Seq<char>, Seq<char>, Seq<char>);

    open spec fn view(&self) -> (Seq<char>, Seq<char>, Seq<char>) {
        (self.x@, self.y@, self.z@)
    }
}

/// A two-component record (a texture coordinate).
#[derive(Debug)]
pub struct Vec2 {
    pub u: String,
    pub v: String,
}

impl View for Vec2 {
    type V = (Seq<char>, Seq<char>);

    open spec fn view(&self) -> (Seq<char>, Seq<char>) {
        (self.u@, self.v@)
    }
}

/// One parsed sub-object.
#[derive(Debug)]
pub struct MeshOBJ {
    pub positions: Vec<Vec3>,
    pub normals: Vec<Vec3>,
    pub uvs: Vec<Vec2>,
    pub colors: Vec<Vec3>,
    pub faces: Vec<(u32, u32, u32)>,
}

/// The mathematical shape of a mesh.
#[verifier::ext_equal]
pub struct MeshView {
    pub positions: Seq<(Seq<char>, Seq<char>, Seq<char>)>,
    pub normals: Seq<(Seq<char>, Seq<char>, Seq<char>)>,
    pub uvs: Seq<(Seq<char>, Seq<char>)>,
    pub colors: Seq<(Seq<char>, Seq<char>, Seq<char>)>,
    pub faces: Seq<(u32, u32, u32)>,
}

impl View for MeshOBJ {
    type V = MeshView;

    open spec fn view(&self) -> MeshView {
        MeshView {
            positions: self.positions@.map_values(|p: Vec3| p@),
            normals: self.normals@.map_values(|p: Vec3| p@),
            uvs: self.uvs@.map_values(|p: Vec2| p@),
            colors: self.colors@.map_values(|p: Vec3| p@),
            faces: self.faces@,
        }
    }
}

pub open spec fn empty_mesh() -> MeshView {
    MeshView {
        positions: Seq::empty(),
        normals: Seq::empty(),
        uvs: Seq::empty(),
        colors: Seq::empty(),
        faces: Seq::empty(),
    }
}

/// One face triple points 1-based into the mesh's own buffers.
pub open spec fn face_in_range(f: (u32, u32, u32), m: MeshView) -> bool {
    1 <= f.0 <= m.positions.len() && 1 <= f.1 <= m.uvs.len() && 1 <= f.2 <= m.normals.len()
}

/// Every face triple is in range: the caller's obligation before flattening.
pub open spec fn faces_in_range(m: MeshView) -> bool {
    forall|i: int| 0 <= i < m.faces.len() ==> face_in_range(#[trigger] m.faces[i], m)
}

/// Entry `i` of the flattened buffer holds its face's position, normal and
/// texture coordinate, in that order.
pub open spec fn flat_entry_ok(m: MeshView, verts: Seq<String>, i: int) -> bool {
    let f = m.faces[i];
    let p = m.positions[f.0 - 1];
    let nr = m.normals[f.2 - 1];
    let uv = m.uvs[f.1 - 1];
    verts[8 * i]@ == p.0 && verts[8 * i + 1]@ == p.1 && verts[8 * i + 2]@ == p.2 && verts[8 * i
        + 3]@ == nr.0 && verts[8 * i + 4]@ == nr.1 && verts[8 * i + 5]@ == nr.2 && verts[8 * i
        + 6]@ == uv.0 && verts[8 * i + 7]@ == uv.1
}

impl MeshOBJ {
    /// A mesh with nothing in it.
    pub fn new_empty() -> (r: Self)
        ensures
            r@ == empty_mesh(),
    {
        let r = MeshOBJ {
            positions: Vec::new(),
            normals: Vec::new(),
            uvs: Vec::new(),
            colors: Vec::new(),
            faces: Vec::new(),
        };
        proof {
            assert(r@ =~= empty_mesh());
        }
        r
    }

    /// The interleaved vertex buffer (three position, three normal and two
    /// texture-coordinate scalars per face entry) and the sequential index
    /// buffer `0, 1, …` beside it. Every face entry becomes its own vertex.
    pub fn as_opengl_format(&self) -> (r: (Vec<String>, Vec<u32>))
        requires
            faces_in_range(self@),
            self@.faces.len() <= 0xffff_ffff,
        ensures
            r.0@.len() == 8 * self@.faces.len(),
            r.1@.len() == self@.faces.len(),
            forall|i: int| 0 <= i < self@.faces.len() ==> #[trigger] r.1@[i] == i as u32,
            forall|i: int| 0 <= i < self@.faces.len() ==> flat_entry_ok(self@, r.0@, i),
    {
        let mut vertices: Vec<String> = Vec::new();
        let mut mesh_indeces: Vec<u32> = Vec::new();
        let n = self.faces.len();
        let mut idx: usize = 0;
        while idx < n
            invariant
                n == self.faces.len(),
                0 <= idx <= n,
                faces_in_range(self@),
                n <= 0xffff_ffff,
                vertices@.len() == 8 * idx,
                mesh_indeces@.len() == idx,
                forall|i: int| 0 <= i < idx ==> #[trigger] mesh_indeces@[i] == i as u32,
                forall|i: int| 0 <= i < idx ==> flat_entry_ok(self@, vertices@, i),
            decreases n - idx,
        {
            let f = self.faces[idx];
            proof {
                assert(self@.faces[idx as int] == f);
                assert(face_in_range(self@.faces[idx as int], self@));
            }
            let pos_i = (f.0 - 1) as usize;
            let uv_i = (f.1 - 1) as usize;
            let normal_i = (f.2 - 1) as usize;
            proof {
                assert(self@.positions[pos_i as int] == self.positions@[pos_i as int]@);
                assert(self@.normals[normal_i as int] == self.normals@[normal_i as int]@);
                assert(self@.uvs[uv_i as int] == self.uvs@[uv_i as int]@);
            }
            let ghost vs0 = vertices@;
            let e0 = self.positions[pos_i].x.clone();
            let e1 = self.positions[pos_i].y.clone();
            let e2 = self.positions[pos_i].z.clone();
            let e3 = self.normals[normal_i].x.clone();
            let e4 = self.normals[normal_i].y.clone();
            let e5 = self.normals[normal_i].z.clone();
            let e6 = self.uvs[uv_i].u.clone();
            let e7 = self.uvs[uv_i].v.clone();
            vertices.push(e0);
            vertices.push(e1);
            vertices.push(e2);
            vertices.push(e3);
            vertices.push(e4);
            vertices.push(e5);
            vertices.push(e6);
            vertices.push(e7);
            mesh_indeces.push(idx as u32);
            proof {
                assert(vertices@ =~= vs0 + seq![e0, e1, e2, e3, e4, e5, e6, e7]);
                assert(flat_entry_ok(self@, vertices@, idx as int));
                assert forall|i: int| 0 <= i < idx implies flat_entry_ok(
                    self@,
                    vertices@,
                    i,
                ) by {
                    assert(flat_entry_ok(self@, vs0, i));
                    assert(8 * i + 7 < vs0.len());
                }
            }
            idx = idx + 1;
        }
        (vertices, mesh_indeces)
    }
}

/// One `v`, `vn` or `color` line: the keyword and three scalars, each
/// right-aligned in seven columns.
pub open spec fn v3_line(kind: Seq<char>, row: (Seq<char>, Seq<char>, Seq<char>)) -> Seq<char> {
    kind + seq![' '] + pad_left(row.0, 7) + seq![' '] + pad_left(row.1, 7) + seq![' '] + pad_left(
        row.2,
        7,
    ) + seq!['\n']
}

pub open spec fn v3_lines_from(
    rows: Seq<(Seq<char>, Seq<char>, Seq<char>)>,
    kind: Seq<char>,
    i: int,
) -> Seq<char>
    decreases rows.len() - i,
{
    if i < 0 || i >= rows.len() {
        Seq::empty()
    } else {
        v3_line(kind, rows[i]) + v3_lines_from(rows, kind, i + 1)
    }
}

/// One `vt` line: the keyword and two scalars, with a trailing space.
pub open spec fn vt_line(row: (Seq<char>, Seq<char>)) -> Seq<char> {
    seq!['v', 't', ' '] + pad_left(row.0, 7) + seq![' '] + pad_left(row.1, 7) + seq![' ', '\n']
}

pub open spec fn vt_lines_from(rows: Seq<(Seq<char>, Seq<char>)>, i: int) -> Seq<char>
    decreases rows.len() - i,
{
    if i < 0 || i >= rows.len() {
        Seq::empty()
    } else {
        vt_line(rows[i]) + vt_lines_from(rows, i + 1)
    }
}

/// One face entry: the three indices in six columns with slashes, and the
/// line break the writer inserts after every entry whose position is a
/// multiple of three.
pub open spec fn face_chunk(f: (u32, u32, u32)) -> Seq<char> {
    u32_col6(f.0 as int) + seq!['/'] + u32_col6(f.1 as int) + seq!['/'] + u32_col6(f.2 as int)
        + seq![' ']
}

pub open spec fn face_entries_from(fs: Seq<(u32, u32, u32)>, i: int) -> Seq<char>
    decreases fs.len() - i,
{
    if i < 0 || i >= fs.len() {
        Seq::empty()
    } else {
        face_chunk(fs[i]) + (if i % 3 == 0 {
            seq!['\n', 'f', ' ']
        } else {
            Seq::empty()
        }) + face_entries_from(fs, i + 1)
    }
}

/// The whole serialized text: positions, texture coordinates, normals, the
/// colour block when there is one, then the face lines.
pub open spec fn obj_text(m: MeshView) -> Seq<char> {
    v3_lines_from(m.positions, seq!['v'], 0) + vt_lines_from(m.uvs, 0) + v3_lines_from(
        m.normals,
        seq!['v', 'n'],
        0,
    ) + (if m.colors.len() == 0 {
        Seq::empty()
    } else {
        v3_lines_from(m.colors, seq!['c', 'o', 'l', 'o', 'r'], 0)
    }) + seq!['f', ' '] + face_entries_from(m.faces, 0)
}

fn append_pad7(out: &mut String, s: &String)
    ensures
        final(out)@ == old(out)@ + pad_left(s@, 7),
{
    let len = s.as_str().unicode_len();
    if len < 7 {
        crate::num::append_spaces(out, 7 - len);
    } else {
        proof {
            assert(spaces(7 - s@.len()) =~= Seq::<char>::empty());
        }
    }
    out.append(s.as_str());
    proof {
        assert(out@ =~= old(out)@ + pad_left(s@, 7));
    }
}

fn emit_v3_lines(out: &mut String, rows: &Vec<Vec3>, kind: &str, i: usize)
    requires
        i <= rows.len(),
    ensures
        final(out)@ == old(out)@ + v3_lines_from(rows@.map_values(|p: Vec3| p@), kind@, i as int),
    decreases rows.len() - i,
{
    let ghost rv = rows@.map_values(|p: Vec3| p@);
    if i < rows.len() {
        proof {
            reveal_strlit(" ");
            reveal_strlit("\n");
        }
        out.append(kind);
        out.append(" ");
        append_pad7(out, &rows[i].x);
        out.append(" ");
        append_pad7(out, &rows[i].y);
        out.append(" ");
        append_pad7(out, &rows[i].z);
        out.append("\n");
        proof {
            assert(rv[i as int] == rows@[i as int]@);
            assert(out@ =~= old(out)@ + v3_line(kind@, rv[i as int]));
        }
        emit_v3_lines(out, rows, kind, i + 1);
        proof {
            assert(out@ =~= old(out)@ + v3_lines_from(rv, kind@, i as int));
        }
    } else {
        proof {
            assert(out@ =~= old(out)@ + v3_lines_from(rv, kind@, i as int));
        }
    }
}

fn emit_vt_lines(out: &mut String, rows: &Vec<Vec2>, i: usize)
    requires
        i <= rows.len(),
    ensures
        final(out)@ == old(out)@ + vt_lines_from(rows@.map_values(|p: Vec2| p@), i as int),
    decreases rows.len() - i,
{
    let ghost rv = rows@.map_values(|p: Vec2| p@);
    if i < rows.len() {
        proof {
            reveal_strlit("vt ");
            reveal_strlit(" ");
            reveal_strlit(" \n");
        }
        out.append("vt ");
        append_pad7(out, &rows[i].u);
        out.append(" ");
        append_pad7(out, &rows[i].v);
        out.append(" \n");
        proof {
            assert(rv[i as int] == rows@[i as int]@);
            assert(out@ =~= old(out)@ + vt_line(rv[i as int]));
        }
        emit_vt_lines(out, rows, i + 1);
        proof {
            assert(out@ =~= old(out)@ + vt_lines_from(rv, i as int));
        }
    } else {
        proof {
            assert(out@ =~= old(out)@ + vt_lines_from(rv, i as int));
        }
    }
}

fn emit_face_entries(out: &mut String, fs: &Vec<(u32, u32, u32)>, i: usize)
    requires
        i <= fs.len(),
    ensures
        final(out)@ == old(out)@ + face_entries_from(fs@, i as int),
    decreases fs.len() - i,
{
    if i < fs.len() {
        proof {
            reveal_strlit("/");
            reveal_strlit(" ");
            reveal_strlit("\nf ");
        }
        let f = fs[i];
        crate::num::append_u32_col6(out, f.0);
        out.append("/");
        crate::num::append_u32_col6(out, f.1);
        out.append("/");
        crate::num::append_u32_col6(out, f.2);
        out.append(" ");
        if i % 3 == 0 {
            out.append("\nf ");
        }
        proof {
            assert(out@ =~= old(out)@ + face_chunk(fs@[i as int]) + (if i as int % 3 == 0 {
                seq!['\n', 'f', ' ']
            } else {
                Seq::<char>::empty()
            }));
        }
        emit_face_entries(out, fs, i + 1);
        proof {
            assert(out@ =~= old(out)@ + face_entries_from(fs@, i as int));
        }
    } else {
        proof {
            assert(out@ =~= old(out)@ + face_entries_from(fs@, i as int));
        }
    }
}

impl MeshOBJ {
    /// The mesh written back in the source format. Each scalar is written as
    /// its stored text, right-aligned in seven columns; the records keep the
    /// reader's order and keywords.
    pub fn to_obj_text(&self) -> (r: String)
        ensures
            r@ == obj_text(self@),
    {
        let mut out = String::new();
        proof {
            reveal_strlit("v");
            reveal_strlit("vn");
            reveal_strlit("color");
            reveal_strlit("f ");
            assert("v"@ =~= seq!['v']);
            assert("vn"@ =~= seq!['v', 'n']);
            assert("color"@ =~= seq!['c', 'o', 'l', 'o', 'r']);
            assert("f "@ =~= seq!['f', ' ']);
        }
        emit_v3_lines(&mut out, &self.positions, "v", 0);
        emit_vt_lines(&mut out, &self.uvs, 0);
        emit_v3_lines(&mut out, &self.normals, "vn", 0);
        if self.colors.len() > 0 {
            emit_v3_lines(&mut out, &self.colors, "color", 0);
        }
        out.append("f ");
        emit_face_entries(&mut out, &self.faces, 0);
        proof {
            assert(out@ =~= obj_text(self@));
        }
        out
    }
}

} // verus!
