//! The parser: lines are classified by their first token, records accumulate
//! into one mesh per sub-object, and raw face indices — which keep growing
//! across sub-objects in the source format — are brought back to each mesh's
//! own buffers by subtracting the previous objects' running maximum.
use crate::error::Error;
use crate::error::ErrView;
use crate::mesh::empty_mesh;
use crate::mesh::MeshOBJ;
use crate::mesh::MeshView;
use crate::mesh::Vec2;
use crate::mesh::Vec3;
use crate::num::int_err_string;
use crate::num::int_err_text;
use crate::num::parse_u32;
use crate::num::u32_parse;
use crate::num::IntErrKind;
use crate::scalar::all_floats_from;
use crate::scalar::check_floats_from;
use crate::scalar::float_err_string;
use crate::scalar::float_err_text;
use crate::text::contains_char;
use crate::text::is_kw1;
use crate::text::is_kw2;
use crate::text::split_char;
use crate::text::split_char_str;
use crate::text::split_marker;
use crate::text::split_marker_str;
use crate::text::str_contains_char;
use crate::text::tokens;
use crate::text::tokens_str;
use crate::text::views_of;
use vstd::prelude::*;
use vstd::string::StringExecFns;

verus! {

/// Subtraction of the running offset, wrapping modulo `2^32` as the machine
/// subtraction does; a raw index above its offset comes out exact.
pub open spec fn wsub(a: u32, b: u32) -> u32 {
    if a >= b {
        (a - b) as u32
    } else {
        (a as int - b as int + 0x1_0000_0000) as u32
    }
}

pub fn sub_offset(a: u32, b: u32) -> (r: u32)
    ensures
        r == wsub(a, b),
{
    if a >= b {
        a - b
    } else {
        let big: u64 = (a as u64) + 0x1_0000_0000u64 - (b as u64);
        proof {
            assert(big < 0x1_0000_0000);
        }
        big as u32
    }
}

pub open spec fn max32(a: u32, b: u32) -> u32 {
    if a >= b {
        a
    } else {
        b
    }
}

fn max_u32(a: u32, b: u32) -> (r: u32)
    ensures
        r == max32(a, b),
{
    if a >= b {
        a
    } else {
        b
    }
}

/// The values of the `/`-separated pieces of one face token, or the first
/// conversion failure, leftmost first.
pub open spec fn decode_subs(subs: Seq<Seq<char>>, i: int) -> Result<Seq<u32>, IntErrKind>
    decreases subs.len() - i,
{
    if i < 0 || i >= subs.len() {
        Ok(Seq::empty())
    } else {
        match u32_parse(subs[i]) {
            Err(k) => Err(k),
            Ok(v) => match decode_subs(subs, i + 1) {
                Err(k) => Err(k),
                Ok(rest) => Ok(seq![v] + rest),
            },
        }
    }
}

/// What one face token does to the state: its three raw indices raise the
/// running maxima, and the triple minus the incoming offset joins the faces.
pub open spec fn face_token_step(
    m: MeshView,
    acc: (u32, u32, u32),
    off: (u32, u32, u32),
    tok: Seq<char>,
) -> Result<(MeshView, (u32, u32, u32)), ErrView> {
    let subs = split_char(tok, '/');
    match decode_subs(subs, 0) {
        Err(k) => Err(ErrView::ParseInt(int_err_text(k))),
        Ok(vals) => if vals.len() != 3 {
            Err(ErrView::FaceIndexFormat)
        } else {
            Ok(
                (
                    MeshView {
                        positions: m.positions,
                        normals: m.normals,
                        uvs: m.uvs,
                        colors: m.colors,
                        faces: m.faces.push(
                            (wsub(vals[0], off.0), wsub(vals[1], off.1), wsub(vals[2], off.2)),
                        ),
                    },
                    (max32(acc.0, vals[0]), max32(acc.1, vals[1]), max32(acc.2, vals[2])),
                ),
            )
        },
    }
}

pub open spec fn face_tokens_fold(
    m: MeshView,
    acc: (u32, u32, u32),
    off: (u32, u32, u32),
    toks: Seq<Seq<char>>,
    i: int,
) -> Result<(MeshView, (u32, u32, u32)), ErrView>
    decreases toks.len() - i,
{
    if i < 0 || i >= toks.len() {
        Ok((m, acc))
    } else {
        match face_token_step(m, acc, off, toks[i]) {
            Err(e) => Err(e),
            Ok(st) => face_tokens_fold(st.0, st.1, off, toks, i + 1),
        }
    }
}

/// What one line does to the state. Empty lines, lines holding the comment
/// character anywhere, lines with no tokens and lines with an unrecognized
/// keyword pass the state through; the four record keywords each demand their
/// exact field count.
pub open spec fn line_step(
    m: MeshView,
    acc: (u32, u32, u32),
    off: (u32, u32, u32),
    line: Seq<char>,
) -> Result<(MeshView, (u32, u32, u32)), ErrView> {
    if line.len() == 0 {
        Ok((m, acc))
    } else if contains_char(line, '#') {
        Ok((m, acc))
    } else {
        let toks = tokens(line);
        if toks.len() == 0 {
            Ok((m, acc))
        } else if toks[0] == seq!['v'] {
            if !all_floats_from(toks, 1) {
                Err(ErrView::ParseFloat(float_err_text()))
            } else if toks.len() == 4 {
                Ok(
                    (
                        MeshView {
                            positions: m.positions.push((toks[1], toks[2], toks[3])),
                            normals: m.normals,
                            uvs: m.uvs,
                            colors: m.colors,
                            faces: m.faces,
                        },
                        acc,
                    ),
                )
            } else if toks.len() == 7 {
                Ok(
                    (
                        MeshView {
                            positions: m.positions.push((toks[1], toks[2], toks[3])),
                            normals: m.normals,
                            uvs: m.uvs,
                            colors: m.colors.push((toks[4], toks[5], toks[6])),
                            faces: m.faces,
                        },
                        acc,
                    ),
                )
            } else {
                Err(ErrView::PositionColorFormat)
            }
        } else if toks[0] == seq!['v', 't'] {
            if !all_floats_from(toks, 1) {
                Err(ErrView::ParseFloat(float_err_text()))
            } else if toks.len() == 3 {
                Ok(
                    (
                        MeshView {
                            positions: m.positions,
                            normals: m.normals,
                            uvs: m.uvs.push((toks[1], toks[2])),
                            colors: m.colors,
                            faces: m.faces,
                        },
                        acc,
                    ),
                )
            } else {
                Err(ErrView::UVFormat)
            }
        } else if toks[0] == seq!['v', 'n'] {
            if !all_floats_from(toks, 1) {
                Err(ErrView::ParseFloat(float_err_text()))
            } else if toks.len() == 4 {
                Ok(
                    (
                        MeshView {
                            positions: m.positions,
                            normals: m.normals.push((toks[1], toks[2], toks[3])),
                            uvs: m.uvs,
                            colors: m.colors,
                            faces: m.faces,
                        },
                        acc,
                    ),
                )
            } else {
                Err(ErrView::NormalFormat)
            }
        } else if toks[0] == seq!['f'] {
            face_tokens_fold(m, acc, off, toks, 1)
        } else {
            Ok((m, acc))
        }
    }
}

pub open spec fn lines_fold(
    m: MeshView,
    acc: (u32, u32, u32),
    off: (u32, u32, u32),
    lines: Seq<Seq<char>>,
    i: int,
) -> Result<(MeshView, (u32, u32, u32)), ErrView>
    decreases lines.len() - i,
{
    if i < 0 || i >= lines.len() {
        Ok((m, acc))
    } else {
        match line_step(m, acc, off, lines[i]) {
            Err(e) => Err(e),
            Ok(st) => lines_fold(st.0, st.1, off, lines, i + 1),
        }
    }
}

/// One chunk of the split source makes one mesh; it starts empty, its running
/// maxima start at zero, and the offset handed in is the previous chunk's
/// result.
pub open spec fn chunks_fold(chunks: Seq<Seq<char>>, i: int, off: (u32, u32, u32)) -> Result<
    Seq<MeshView>,
    ErrView,
>
    decreases chunks.len() - i,
{
    if i < 0 || i >= chunks.len() {
        Ok(Seq::empty())
    } else {
        match lines_fold(empty_mesh(), (0, 0, 0), off, split_char(chunks[i], '\n'), 0) {
            Err(e) => Err(e),
            Ok(st) => match chunks_fold(chunks, i + 1, st.1) {
                Err(e) => Err(e),
                Ok(rest) => Ok(seq![st.0] + rest),
            },
        }
    }
}

/// The whole parse: split on the object marker, drop everything before the
/// first marker, and fold the chunks left to right with a zero initial
/// offset.
pub open spec fn parse_all(s: Seq<char>) -> Result<Seq<MeshView>, ErrView> {
    chunks_fold(split_marker(s), 1, (0, 0, 0))
}

fn face_token_exec(mesh: MeshOBJ, acc: (u32, u32, u32), off: (u32, u32, u32), tok: &str) -> (r:
    Result<(MeshOBJ, (u32, u32, u32)), Error>)
    ensures
        (r is Ok) == (face_token_step(mesh@, acc, off, tok@) is Ok),
        r is Ok ==> r->Ok_0.0@ == face_token_step(mesh@, acc, off, tok@)->Ok_0.0 && r->Ok_0.1
            == face_token_step(mesh@, acc, off, tok@)->Ok_0.1,
        r is Err ==> r->Err_0@ == face_token_step(mesh@, acc, off, tok@)->Err_0,
{
    let subs = split_char_str(tok, '/');
    let ghost sv = split_char(tok@, '/');
    let n = subs.len();
    let mut vals: Vec<u32> = Vec::new();
    let mut j: usize = 0;
    proof {
        if decode_subs(sv, 0) is Ok {
            assert(Seq::<u32>::empty() + decode_subs(sv, 0)->Ok_0 =~= decode_subs(sv, 0)->Ok_0);
        }
    }
    while j < n
        invariant
            n == subs.len(),
            0 <= j <= n,
            sv == views_of(subs@),
            sv == split_char(tok@, '/'),
            decode_subs(sv, 0) == match decode_subs(sv, j as int) {
                Ok(rest) => Ok::<Seq<u32>, IntErrKind>(vals@ + rest),
                Err(k) => Err::<Seq<u32>, IntErrKind>(k),
            },
        decreases n - j,
    {
        proof {
            assert(sv[j as int] == subs@[j as int]@);
        }
        match parse_u32(subs[j]) {
            Err(k) => {
                proof {
                    assert(decode_subs(sv, j as int) == Err::<Seq<u32>, IntErrKind>(k));
                }
                return Err(Error::ParseInt(int_err_string(k)));
            },
            Ok(v) => {
                proof {
                    if decode_subs(sv, j + 1) is Ok {
                        assert(vals@ + (seq![v] + decode_subs(sv, j + 1)->Ok_0) =~= vals@.push(v)
                            + decode_subs(sv, j + 1)->Ok_0);
                    }
                }
                vals.push(v);
            },
        }
        j = j + 1;
    }
    proof {
        assert(decode_subs(sv, n as int) == Ok::<Seq<u32>, IntErrKind>(Seq::empty()));
        assert(vals@ + Seq::<u32>::empty() =~= vals@);
        assert(decode_subs(sv, 0) == Ok::<Seq<u32>, IntErrKind>(vals@));
    }
    if vals.len() != 3 {
        return Err(Error::FaceIndexFormat);
    }
    let r0 = vals[0];
    let r1 = vals[1];
    let r2 = vals[2];
    let acc2 = (max_u32(acc.0, r0), max_u32(acc.1, r1), max_u32(acc.2, r2));
    let mut mesh = mesh;
    let ghost m0 = mesh@;
    mesh.faces.push((sub_offset(r0, off.0), sub_offset(r1, off.1), sub_offset(r2, off.2)));
    proof {
        assert(mesh@ =~= (MeshView {
            positions: m0.positions,
            normals: m0.normals,
            uvs: m0.uvs,
            colors: m0.colors,
            faces: m0.faces.push((wsub(r0, off.0), wsub(r1, off.1), wsub(r2, off.2))),
        }));
    }
    Ok((mesh, acc2))
}

fn push_vec3(toks: &Vec<&str>, i: usize) -> (r: Vec3)
    requires
        i + 2 < toks.len(),
    ensures
        r@ == (toks@[i as int]@, toks@[i as int + 1]@, toks@[i as int + 2]@),
{
    Vec3 {
        x: String::from_str(toks[i]),
        y: String::from_str(toks[i + 1]),
        z: String::from_str(toks[i + 2]),
    }
}

fn do_line(mesh: MeshOBJ, acc: (u32, u32, u32), off: (u32, u32, u32), line: &str) -> (r: Result<
    (MeshOBJ, (u32, u32, u32)),
    Error,
>)
    ensures
        (r is Ok) == (line_step(mesh@, acc, off, line@) is Ok),
        r is Ok ==> r->Ok_0.0@ == line_step(mesh@, acc, off, line@)->Ok_0.0 && r->Ok_0.1
            == line_step(mesh@, acc, off, line@)->Ok_0.1,
        r is Err ==> r->Err_0@ == line_step(mesh@, acc, off, line@)->Err_0,
{
    if line.is_empty() {
        return Ok((mesh, acc));
    }
    if str_contains_char(line, '#') {
        return Ok((mesh, acc));
    }
    let toks = tokens_str(line);
    let ghost tv = tokens(line@);
    if toks.len() == 0 {
        return Ok((mesh, acc));
    }
    proof {
        assert(tv[0] == toks@[0]@);
    }
    let ghost m0 = mesh@;
    if is_kw1(toks[0], 'v') {
        if !check_floats_from(&toks, 1) {
            return Err(Error::ParseFloat(float_err_string()));
        }
        if toks.len() == 4 {
            let row = push_vec3(&toks, 1);
            let mut mesh = mesh;
            mesh.positions.push(row);
            proof {
                assert(tv[1] == toks@[1]@ && tv[2] == toks@[2]@ && tv[3] == toks@[3]@);
                assert(mesh@ =~= (MeshView {
                    positions: m0.positions.push((tv[1], tv[2], tv[3])),
                    normals: m0.normals,
                    uvs: m0.uvs,
                    colors: m0.colors,
                    faces: m0.faces,
                }));
            }
            Ok((mesh, acc))
        } else if toks.len() == 7 {
            let row = push_vec3(&toks, 1);
            let col = push_vec3(&toks, 4);
            let mut mesh = mesh;
            mesh.positions.push(row);
            mesh.colors.push(col);
            proof {
                assert(tv[1] == toks@[1]@ && tv[2] == toks@[2]@ && tv[3] == toks@[3]@);
                assert(tv[4] == toks@[4]@ && tv[5] == toks@[5]@ && tv[6] == toks@[6]@);
                assert(mesh@ =~= (MeshView {
                    positions: m0.positions.push((tv[1], tv[2], tv[3])),
                    normals: m0.normals,
                    uvs: m0.uvs,
                    colors: m0.colors.push((tv[4], tv[5], tv[6])),
                    faces: m0.faces,
                }));
            }
            Ok((mesh, acc))
        } else {
            Err(Error::PositionColorFormat)
        }
    } else if is_kw2(toks[0], 'v', 't') {
        if !check_floats_from(&toks, 1) {
            return Err(Error::ParseFloat(float_err_string()));
        }
        if toks.len() == 3 {
            let row = Vec2 { u: String::from_str(toks[1]), v: String::from_str(toks[2]) };
            let mut mesh = mesh;
            mesh.uvs.push(row);
            proof {
                assert(tv[1] == toks@[1]@ && tv[2] == toks@[2]@);
                assert(mesh@ =~= (MeshView {
                    positions: m0.positions,
                    normals: m0.normals,
                    uvs: m0.uvs.push((tv[1], tv[2])),
                    colors: m0.colors,
                    faces: m0.faces,
                }));
            }
            Ok((mesh, acc))
        } else {
            Err(Error::UVFormat)
        }
    } else if is_kw2(toks[0], 'v', 'n') {
        if !check_floats_from(&toks, 1) {
            return Err(Error::ParseFloat(float_err_string()));
        }
        if toks.len() == 4 {
            let row = push_vec3(&toks, 1);
            let mut mesh = mesh;
            mesh.normals.push(row);
            proof {
                assert(tv[1] == toks@[1]@ && tv[2] == toks@[2]@ && tv[3] == toks@[3]@);
                assert(mesh@ =~= (MeshView {
                    positions: m0.positions,
                    normals: m0.normals.push((tv[1], tv[2], tv[3])),
                    uvs: m0.uvs,
                    colors: m0.colors,
                    faces: m0.faces,
                }));
            }
            Ok((mesh, acc))
        } else {
            Err(Error::NormalFormat)
        }
    } else if is_kw1(toks[0], 'f') {
        face_tokens_exec(mesh, acc, off, &toks, 1)
    } else {
        Ok((mesh, acc))
    }
}

fn face_tokens_exec(
    mesh: MeshOBJ,
    acc: (u32, u32, u32),
    off: (u32, u32, u32),
    toks: &Vec<&str>,
    j: usize,
) -> (r: Result<(MeshOBJ, (u32, u32, u32)), Error>)
    ensures
        (r is Ok) == (face_tokens_fold(mesh@, acc, off, views_of(toks@), j as int) is Ok),
        r is Ok ==> r->Ok_0.0@ == face_tokens_fold(mesh@, acc, off, views_of(toks@), j as int)->Ok_0.0
            && r->Ok_0.1 == face_tokens_fold(mesh@, acc, off, views_of(toks@), j as int)->Ok_0.1,
        r is Err ==> r->Err_0@ == face_tokens_fold(mesh@, acc, off, views_of(toks@), j as int)->Err_0,
    decreases toks.len() - j,
{
    if j >= toks.len() {
        Ok((mesh, acc))
    } else {
        proof {
            assert(views_of(toks@)[j as int] == toks@[j as int]@);
        }
        match face_token_exec(mesh, acc, off, toks[j]) {
            Err(e) => Err(e),
            Ok(st) => face_tokens_exec(st.0, st.1, off, toks, j + 1),
        }
    }
}

fn parse_lines_exec(
    lines: &Vec<&str>,
    i: usize,
    mesh: MeshOBJ,
    acc: (u32, u32, u32),
    off: (u32, u32, u32),
) -> (r: Result<(MeshOBJ, (u32, u32, u32)), Error>)
    requires
        i <= lines.len(),
    ensures
        (r is Ok) == (lines_fold(mesh@, acc, off, views_of(lines@), i as int) is Ok),
        r is Ok ==> r->Ok_0.0@ == lines_fold(mesh@, acc, off, views_of(lines@), i as int)->Ok_0.0
            && r->Ok_0.1 == lines_fold(mesh@, acc, off, views_of(lines@), i as int)->Ok_0.1,
        r is Err ==> r->Err_0@ == lines_fold(mesh@, acc, off, views_of(lines@), i as int)->Err_0,
    decreases lines.len() - i,
{
    if i == lines.len() {
        Ok((mesh, acc))
    } else {
        proof {
            assert(views_of(lines@)[i as int] == lines@[i as int]@);
        }
        match do_line(mesh, acc, off, lines[i]) {
            Err(e) => Err(e),
            Ok(st) => parse_lines_exec(lines, i + 1, st.0, st.1, off),
        }
    }
}

fn parse_chunks_exec(chunks: &Vec<&str>, i: usize, off: (u32, u32, u32)) -> (r: Result<
    Vec<MeshOBJ>,
    Error,
>)
    ensures
        (r is Ok) == (chunks_fold(views_of(chunks@), i as int, off) is Ok),
        r is Ok ==> r->Ok_0@.map_values(|m: MeshOBJ| m@) == chunks_fold(
            views_of(chunks@),
            i as int,
            off,
        )->Ok_0,
        r is Err ==> r->Err_0@ == chunks_fold(views_of(chunks@), i as int, off)->Err_0,
    decreases chunks.len() - i,
{
    if i >= chunks.len() {
        let v: Vec<MeshOBJ> = Vec::new();
        proof {
            assert(v@.map_values(|m: MeshOBJ| m@) =~= Seq::<MeshView>::empty());
        }
        Ok(v)
    } else {
        proof {
            assert(views_of(chunks@)[i as int] == chunks@[i as int]@);
        }
        let lines = split_char_str(chunks[i], '\n');
        match parse_lines_exec(&lines, 0, MeshOBJ::new_empty(), (0, 0, 0), off) {
            Err(e) => Err(e),
            Ok(st) => {
                match parse_chunks_exec(chunks, i + 1, st.1) {
                    Err(e) => Err(e),
                    Ok(mut v) => {
                        let ghost rest = v@.map_values(|m: MeshOBJ| m@);
                        v.insert(0, st.0);
                        proof {
                            assert(v@.map_values(|m: MeshOBJ| m@) =~= seq![st.0@] + rest);
                        }
                        Ok(v)
                    },
                }
            },
        }
    }
}

/// Parse a whole source text into its sub-objects, in source order. The
/// result is `Ok` exactly when every chunk after the first object marker
/// folds through `line_step` without an error, and it then carries exactly
/// the meshes that fold produces; on failure it carries the first error.
pub fn parse_obj(src: String) -> (r: Result<Vec<MeshOBJ>, Error>)
    ensures
        (r is Ok) == (parse_all(src@) is Ok),
        r is Ok ==> r->Ok_0@.map_values(|m: MeshOBJ| m@) == parse_all(src@)->Ok_0,
        r is Err ==> r->Err_0@ == parse_all(src@)->Err_0,
{
    let chunks = split_marker_str(src.as_str());
    parse_chunks_exec(&chunks, 1, (0, 0, 0))
}

} // verus!
