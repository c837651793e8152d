//! General properties of the parser, stated over the same spec functions the
//! public contracts use, and proved once and for all.
use crate::error::ErrView;
use crate::mesh::empty_mesh;
use crate::mesh::face_entries_from;
use crate::mesh::obj_text;
use crate::mesh::v3_line;
use crate::mesh::v3_lines_from;
use crate::mesh::vt_line;
use crate::mesh::vt_lines_from;
use crate::mesh::MeshView;
use crate::parse::chunks_fold;
use crate::parse::decode_subs;
use crate::parse::face_token_step;
use crate::parse::face_tokens_fold;
use crate::parse::line_step;
use crate::parse::lines_fold;
use crate::parse::parse_all;
use crate::parse::wsub;
use crate::num::pad_left;
use crate::num::spaces;
use crate::scalar::all_floats_from;
use crate::scalar::is_float_token;
use crate::scalar::lemma_float_token_chars;
use crate::scalar::lemma_scalar_char_tame;
use crate::text::contains_char;
use crate::text::lemma_contains_concat;
use crate::text::lemma_no_marker_single_chunk;
use crate::text::lemma_split_line;
use crate::text::lemma_split_no_delim;
use crate::text::split_char_rec;
use crate::text::split_marker_rec;
use crate::text::lemma_tokens_over_space;
use crate::text::lemma_tokens_over_word;
use crate::text::lemma_tokens_over_ws;
use crate::text::no_ws;
use crate::text::split_char;
use crate::text::split_marker;
use crate::text::tokens;
use crate::text::tokens_rec;
use vstd::prelude::*;

verus! {

/// A line that holds the comment character anywhere — even in the middle of
/// its data — is skipped whole: it contributes nothing to any buffer and
/// leaves the running maxima untouched.
pub proof fn lemma_comment_line_skipped(
    m: MeshView,
    acc: (u32, u32, u32),
    off: (u32, u32, u32),
    line: Seq<char>,
)
    requires
        contains_char(line, '#'),
    ensures
        line_step(m, acc, off, line) == Ok::<(MeshView, (u32, u32, u32)), ErrView>((m, acc)),
{
}

/// A `v` line whose fields are all numeric adds exactly one position when it
/// has three fields, one position and one colour when it has six, and fails
/// with the position/colour format error on every other count.
pub proof fn lemma_position_color_line(
    m: MeshView,
    acc: (u32, u32, u32),
    off: (u32, u32, u32),
    line: Seq<char>,
)
    requires
        line.len() > 0,
        !contains_char(line, '#'),
        tokens(line).len() >= 1,
        tokens(line)[0] == seq!['v'],
        all_floats_from(tokens(line), 1),
    ensures
        tokens(line).len() == 4 ==> line_step(m, acc, off, line) == Ok::<
            (MeshView, (u32, u32, u32)),
            ErrView,
        >(
            (
                MeshView {
                    positions: m.positions.push(
                        (tokens(line)[1], tokens(line)[2], tokens(line)[3]),
                    ),
                    normals: m.normals,
                    uvs: m.uvs,
                    colors: m.colors,
                    faces: m.faces,
                },
                acc,
            ),
        ),
        tokens(line).len() == 7 ==> line_step(m, acc, off, line) == Ok::<
            (MeshView, (u32, u32, u32)),
            ErrView,
        >(
            (
                MeshView {
                    positions: m.positions.push(
                        (tokens(line)[1], tokens(line)[2], tokens(line)[3]),
                    ),
                    normals: m.normals,
                    uvs: m.uvs,
                    colors: m.colors.push((tokens(line)[4], tokens(line)[5], tokens(line)[6])),
                    faces: m.faces,
                },
                acc,
            ),
        ),
        tokens(line).len() != 4 && tokens(line).len() != 7 ==> line_step(m, acc, off, line)
            == Err::<(MeshView, (u32, u32, u32)), ErrView>(ErrView::PositionColorFormat),
{
}

/// Offset correction: a raw index that lies past the incoming offset, within
/// the window this object's own buffer leaves, lands on a valid 1-based local
/// index after the subtraction.
pub proof fn lemma_offset_correction(raw: u32, off: u32, n: u32)
    requires
        off < raw,
        raw <= off + n,
    ensures
        1 <= wsub(raw, off) <= n,
{
}

/// The raw triple one face token decodes to, where it decodes at all.
pub open spec fn raw_triple(tok: Seq<char>) -> (u32, u32, u32) {
    let vals = decode_subs(split_char(tok, '/'), 0)->Ok_0;
    (vals[0], vals[1], vals[2])
}

/// A face line's tokens append their triples in order, each exactly the raw
/// triple minus the incoming offset, and they touch nothing but the face
/// buffer and the running maxima. With `lemma_offset_correction` this is the
/// cross-object correction: raw indices windowed over the previous objects'
/// counts come out as valid local indices.
pub proof fn lemma_face_fold_corrects(
    m: MeshView,
    acc: (u32, u32, u32),
    off: (u32, u32, u32),
    toks: Seq<Seq<char>>,
    i: int,
)
    requires
        0 <= i <= toks.len(),
        face_tokens_fold(m, acc, off, toks, i) is Ok,
    ensures
        ({
            let out = face_tokens_fold(m, acc, off, toks, i)->Ok_0.0;
            out.faces.len() == m.faces.len() + toks.len() - i && (forall|k: int|
                0 <= k < m.faces.len() ==> out.faces[k] == m.faces[k]) && (forall|j: int|
                i <= j < toks.len() ==> out.faces[m.faces.len() + j - i] == (
                    wsub(raw_triple(toks[j]).0, off.0),
                    wsub(raw_triple(toks[j]).1, off.1),
                    wsub(raw_triple(toks[j]).2, off.2),
                )) && out.positions == m.positions && out.normals == m.normals && out.uvs == m.uvs
                && out.colors == m.colors
        }),
    decreases toks.len() - i,
{
    if i < toks.len() {
        let st = face_token_step(m, acc, off, toks[i])->Ok_0;
        lemma_face_fold_corrects(st.0, st.1, off, toks, i + 1);
    }
}

/// A line that is skipped: empty, a comment, no tokens at all, or an
/// unrecognized leading keyword.
pub open spec fn skipped_line(l: Seq<char>) -> bool {
    l.len() == 0 || contains_char(l, '#') || tokens(l).len() == 0 || (tokens(l)[0] != seq!['v']
        && tokens(l)[0] != seq!['v', 't'] && tokens(l)[0] != seq!['v', 'n'] && tokens(l)[0]
        != seq!['f'])
}

/// A well-formed position record with three fields.
pub open spec fn position3_line(l: Seq<char>) -> bool {
    l.len() > 0 && !contains_char(l, '#') && tokens(l).len() == 4 && tokens(l)[0] == seq!['v']
        && all_floats_from(tokens(l), 1)
}

/// A well-formed texture-coordinate record.
pub open spec fn uv2_line(l: Seq<char>) -> bool {
    l.len() > 0 && !contains_char(l, '#') && tokens(l).len() == 3 && tokens(l)[0] == seq!['v', 't']
        && all_floats_from(tokens(l), 1)
}

/// A well-formed normal record.
pub open spec fn normal3_line(l: Seq<char>) -> bool {
    l.len() > 0 && !contains_char(l, '#') && tokens(l).len() == 4 && tokens(l)[0] == seq![
        'v',
        'n',
    ] && all_floats_from(tokens(l), 1)
}

pub open spec fn count_pos(lines: Seq<Seq<char>>, i: int) -> int
    decreases lines.len() - i,
{
    if i < 0 || i >= lines.len() {
        0
    } else {
        (if position3_line(lines[i]) {
            1int
        } else {
            0int
        }) + count_pos(lines, i + 1)
    }
}

pub open spec fn count_uv(lines: Seq<Seq<char>>, i: int) -> int
    decreases lines.len() - i,
{
    if i < 0 || i >= lines.len() {
        0
    } else {
        (if uv2_line(lines[i]) {
            1int
        } else {
            0int
        }) + count_uv(lines, i + 1)
    }
}

pub open spec fn count_norm(lines: Seq<Seq<char>>, i: int) -> int
    decreases lines.len() - i,
{
    if i < 0 || i >= lines.len() {
        0
    } else {
        (if normal3_line(lines[i]) {
            1int
        } else {
            0int
        }) + count_norm(lines, i + 1)
    }
}

/// A single object whose lines are all well-formed records or skipped lines,
/// with no face records, parses without error; it gains exactly one position
/// per position line, one texture coordinate per `vt` line and one normal per
/// `vn` line, adds no colour and no face, and leaves the running maxima
/// untouched.
pub proof fn lemma_single_object_counts(
    m: MeshView,
    acc: (u32, u32, u32),
    off: (u32, u32, u32),
    lines: Seq<Seq<char>>,
    i: int,
)
    requires
        0 <= i <= lines.len(),
        forall|j: int|
            i <= j < lines.len() ==> skipped_line(#[trigger] lines[j]) || position3_line(lines[j])
                || uv2_line(lines[j]) || normal3_line(lines[j]),
    ensures
        lines_fold(m, acc, off, lines, i) is Ok,
        ({
            let out = lines_fold(m, acc, off, lines, i)->Ok_0;
            out.0.positions.len() == m.positions.len() + count_pos(lines, i) && out.0.uvs.len()
                == m.uvs.len() + count_uv(lines, i) && out.0.normals.len() == m.normals.len()
                + count_norm(lines, i) && out.0.colors == m.colors && out.0.faces == m.faces
                && out.1 == acc
        }),
    decreases lines.len() - i,
{
    if i < lines.len() {
        let l = lines[i];
        assert(skipped_line(l) || position3_line(l) || uv2_line(l) || normal3_line(l));
        let st = line_step(m, acc, off, l);
        if l.len() == 0 || contains_char(l, '#') || tokens(l).len() == 0 {
            assert(st == Ok::<(MeshView, (u32, u32, u32)), ErrView>((m, acc)));
        } else if position3_line(l) {
            assert(st is Ok && st->Ok_0.0.positions.len() == m.positions.len() + 1 && st->Ok_0.0.uvs
                == m.uvs && st->Ok_0.0.normals == m.normals && st->Ok_0.0.colors == m.colors
                && st->Ok_0.0.faces == m.faces && st->Ok_0.1 == acc);
        } else if uv2_line(l) {
            assert(tokens(l)[0] == seq!['v', 't']);
            assert(seq!['v', 't'].len() == 2 && seq!['v'].len() == 1);
            assert(tokens(l)[0] != seq!['v']);
            assert(st == Ok::<(MeshView, (u32, u32, u32)), ErrView>(
                (
                    MeshView {
                        positions: m.positions,
                        normals: m.normals,
                        uvs: m.uvs.push((tokens(l)[1], tokens(l)[2])),
                        colors: m.colors,
                        faces: m.faces,
                    },
                    acc,
                ),
            ));
            assert(st is Ok && st->Ok_0.0.uvs.len() == m.uvs.len() + 1 && st->Ok_0.0.positions
                == m.positions && st->Ok_0.0.normals == m.normals && st->Ok_0.0.colors == m.colors
                && st->Ok_0.0.faces == m.faces && st->Ok_0.1 == acc);
        } else if normal3_line(l) {
            assert(st is Ok && st->Ok_0.0.normals.len() == m.normals.len() + 1 && st->Ok_0.0.positions
                == m.positions && st->Ok_0.0.uvs == m.uvs && st->Ok_0.0.colors == m.colors
                && st->Ok_0.0.faces == m.faces && st->Ok_0.1 == acc);
        } else {
            assert(tokens(l)[0] != seq!['v'] && tokens(l)[0] != seq!['v', 't'] && tokens(l)[0]
                != seq!['v', 'n'] && tokens(l)[0] != seq!['f']);
            assert(st == Ok::<(MeshView, (u32, u32, u32)), ErrView>((m, acc)));
        }
        lemma_single_object_counts(st->Ok_0.0, st->Ok_0.1, off, lines, i + 1);
    }
}

/// The same, lifted to a whole source text holding exactly one sub-object:
/// the parse yields one mesh, with the counts of `lemma_single_object_counts`
/// and empty colour and face buffers.
pub proof fn lemma_single_object_parse(s: Seq<char>)
    requires
        split_marker(s).len() == 2,
        forall|j: int|
            0 <= j < split_char(split_marker(s)[1], '\n').len() ==> skipped_line(
                #[trigger] split_char(split_marker(s)[1], '\n')[j],
            ) || position3_line(split_char(split_marker(s)[1], '\n')[j]) || uv2_line(
                split_char(split_marker(s)[1], '\n')[j],
            ) || normal3_line(split_char(split_marker(s)[1], '\n')[j]),
    ensures
        parse_all(s) is Ok,
        parse_all(s)->Ok_0.len() == 1,
        ({
            let lines = split_char(split_marker(s)[1], '\n');
            let m = parse_all(s)->Ok_0[0];
            m.positions.len() == count_pos(lines, 0) && m.uvs.len() == count_uv(lines, 0)
                && m.normals.len() == count_norm(lines, 0) && m.colors.len() == 0 && m.faces.len()
                == 0
        }),
{
    let chunks = split_marker(s);
    let lines = split_char(chunks[1], '\n');
    lemma_single_object_counts(crate::mesh::empty_mesh(), (0, 0, 0), (0, 0, 0), lines, 0);
    let st = lines_fold(crate::mesh::empty_mesh(), (0, 0, 0), (0, 0, 0), lines, 0)->Ok_0;
    assert(chunks_fold(chunks, 2, st.1) == Ok::<Seq<MeshView>, ErrView>(Seq::empty()));
    assert(seq![st.0] + Seq::<MeshView>::empty() =~= seq![st.0]);
}


proof fn lemma_token_tame(t: Seq<char>)
    requires
        is_float_token(t),
    ensures
        no_ws(t),
        !contains_char(t, '#'),
        t.len() > 0,
{
    lemma_float_token_chars(t);
    assert forall|j: int| 0 <= j < t.len() implies !crate::text::is_ws_char(#[trigger] t[j]) by {
        lemma_scalar_char_tame(t[j]);
    }
    if contains_char(t, '#') {
        let i = choose|i: int| 0 <= i < t.len() && t[i] == '#';
        lemma_scalar_char_tame(t[i]);
    }
}

proof fn lemma_no_hash_small()
    ensures
        !contains_char(seq![' '], '#'),
    decreases 0int,
{
    if contains_char(seq![' '], '#') {
        let i = choose|i: int| 0 <= i < seq![' '].len() && seq![' '][i] == '#';
        assert(i == 0);
    }
}

proof fn lemma_no_hash_pad(t: Seq<char>)
    requires
        !contains_char(t, '#'),
    ensures
        !contains_char(pad_left(t, 7), '#'),
{
    let sp = spaces(7 - t.len());
    lemma_contains_concat(sp, t, '#');
    if contains_char(sp, '#') {
        let i = choose|i: int| 0 <= i < sp.len() && #[trigger] sp[i] == '#';
        crate::num::lemma_spaces_all_ws(7 - t.len());
    }
}

proof fn lemma_tokens_padded_word(t: Seq<char>, rest: Seq<char>)
    requires
        no_ws(t),
        t.len() > 0,
    ensures
        tokens_rec(pad_left(t, 7) + rest, Seq::empty()) == tokens_rec(rest, t),
{
    crate::num::lemma_spaces_all_ws(7 - t.len());
    assert(crate::text::all_ws(spaces(7 - t.len())));
    assert(pad_left(t, 7) + rest =~= spaces(7 - t.len()) + (t + rest));
    lemma_tokens_over_ws(spaces(7 - t.len()), t + rest);
    lemma_tokens_over_word(t, rest, Seq::empty());
    assert(Seq::empty() + t =~= t);
}

/// The serializer's three-scalar line, without its terminating line break:
/// this is the line the re-parse sees after splitting on line breaks.
pub open spec fn v3_body(kind: Seq<char>, row: (Seq<char>, Seq<char>, Seq<char>)) -> Seq<char> {
    kind + seq![' '] + pad_left(row.0, 7) + seq![' '] + pad_left(row.1, 7) + seq![' '] + pad_left(
        row.2,
        7,
    )
}

/// The serializer's texture-coordinate line without its line break.
pub open spec fn vt_body(row: (Seq<char>, Seq<char>)) -> Seq<char> {
    seq!['v', 't', ' '] + pad_left(row.0, 7) + seq![' '] + pad_left(row.1, 7) + seq![' ']
}

proof fn lemma_v3_body_tokens(kind: Seq<char>, row: (Seq<char>, Seq<char>, Seq<char>))
    requires
        kind.len() > 0,
        no_ws(kind),
        !contains_char(kind, '#'),
        is_float_token(row.0),
        is_float_token(row.1),
        is_float_token(row.2),
    ensures
        tokens(v3_body(kind, row)) == seq![kind, row.0, row.1, row.2],
        !contains_char(v3_body(kind, row), '#'),
        v3_body(kind, row).len() > 0,
{
    let a = row.0;
    let b = row.1;
    let c = row.2;
    lemma_token_tame(a);
    lemma_token_tame(b);
    lemma_token_tame(c);
    let r3: Seq<char> = pad_left(c, 7);
    let r2: Seq<char> = pad_left(b, 7) + (seq![' '] + r3);
    let r1: Seq<char> = pad_left(a, 7) + (seq![' '] + r2);
    let body = v3_body(kind, row);
    assert(body =~= kind + (seq![' '] + r1));
    lemma_tokens_over_word(kind, seq![' '] + r1, Seq::empty());
    assert(Seq::empty() + kind =~= kind);
    lemma_tokens_over_space(r1, kind);
    lemma_tokens_padded_word(a, seq![' '] + r2);
    lemma_tokens_over_space(r2, a);
    lemma_tokens_padded_word(b, seq![' '] + r3);
    lemma_tokens_over_space(r3, b);
    assert(r3 =~= pad_left(c, 7) + Seq::<char>::empty());
    lemma_tokens_padded_word(c, Seq::empty());
    assert(tokens_rec(Seq::empty(), c) == seq![c]);
    assert(tokens(body) =~= seq![kind, a, b, c]);
    // no comment character anywhere in the line
    lemma_no_hash_small();
    lemma_no_hash_pad(a);
    lemma_no_hash_pad(b);
    lemma_no_hash_pad(c);
    lemma_contains_concat(kind, seq![' '] + r1, '#');
    lemma_contains_concat(seq![' '], r1, '#');
    lemma_contains_concat(pad_left(a, 7), seq![' '] + r2, '#');
    lemma_contains_concat(seq![' '], r2, '#');
    lemma_contains_concat(pad_left(b, 7), seq![' '] + r3, '#');
    lemma_contains_concat(seq![' '], r3, '#');
    assert(contains_char(body, '#') == contains_char(kind + (seq![' '] + r1), '#'));
}

proof fn lemma_vt_body_tokens(row: (Seq<char>, Seq<char>))
    requires
        is_float_token(row.0),
        is_float_token(row.1),
    ensures
        tokens(vt_body(row)) == seq![seq!['v', 't'], row.0, row.1],
        !contains_char(vt_body(row), '#'),
        vt_body(row).len() > 0,
{
    let a = row.0;
    let b = row.1;
    lemma_token_tame(a);
    lemma_token_tame(b);
    let r2: Seq<char> = pad_left(b, 7) + seq![' '];
    let r1: Seq<char> = pad_left(a, 7) + (seq![' '] + r2);
    let body = vt_body(row);
    assert(body =~= seq!['v', 't'] + (seq![' '] + r1));
    assert(no_ws(seq!['v', 't']));
    lemma_tokens_over_word(seq!['v', 't'], seq![' '] + r1, Seq::empty());
    assert(Seq::empty() + seq!['v', 't'] =~= seq!['v', 't']);
    lemma_tokens_over_space(r1, seq!['v', 't']);
    lemma_tokens_padded_word(a, seq![' '] + r2);
    lemma_tokens_over_space(r2, a);
    assert(r2 =~= pad_left(b, 7) + (seq![' '] + Seq::<char>::empty()));
    lemma_tokens_padded_word(b, seq![' '] + Seq::<char>::empty());
    lemma_tokens_over_space(Seq::empty(), b);
    assert(tokens_rec(Seq::<char>::empty(), Seq::<char>::empty())
        == Seq::<Seq<char>>::empty());
    assert(tokens(body) =~= seq![seq!['v', 't'], a, b]);
    lemma_no_hash_small();
    lemma_no_hash_pad(a);
    lemma_no_hash_pad(b);
    if contains_char(seq!['v', 't'], '#') {
        let i = choose|i: int| 0 <= i < 2 && seq!['v', 't'][i] == '#';
    }
    lemma_contains_concat(seq!['v', 't'], seq![' '] + r1, '#');
    lemma_contains_concat(seq![' '], r1, '#');
    lemma_contains_concat(pad_left(a, 7), seq![' '] + r2, '#');
    lemma_contains_concat(seq![' '], r2, '#');
    lemma_contains_concat(pad_left(b, 7), seq![' '], '#');
}

/// Round trip of one position record: the line the serializer writes for a
/// stored row parses back to exactly that row, appended to the positions and
/// touching nothing else. With its `vt`/`vn` mates this is the record-level
/// half of the serialize-then-reparse property; the scenario over a whole
/// text stands in the tests.
pub proof fn lemma_serialized_position_reparses(
    m: MeshView,
    acc: (u32, u32, u32),
    off: (u32, u32, u32),
    row: (Seq<char>, Seq<char>, Seq<char>),
)
    requires
        is_float_token(row.0),
        is_float_token(row.1),
        is_float_token(row.2),
    ensures
        line_step(m, acc, off, v3_body(seq!['v'], row)) == Ok::<
            (MeshView, (u32, u32, u32)),
            ErrView,
        >(
            (
                MeshView {
                    positions: m.positions.push(row),
                    normals: m.normals,
                    uvs: m.uvs,
                    colors: m.colors,
                    faces: m.faces,
                },
                acc,
            ),
        ),
{
    assert(no_ws(seq!['v']));
    if contains_char(seq!['v'], '#') {
        let i = choose|i: int| 0 <= i < 1 && seq!['v'][i] == '#';
    }
    lemma_v3_body_tokens(seq!['v'], row);
    let toks = tokens(v3_body(seq!['v'], row));
    assert(toks[0] == seq!['v'] && toks[1] == row.0 && toks[2] == row.1 && toks[3] == row.2);
    assert(all_floats_from(toks, 1));
    assert((row.0, row.1, row.2) == row);
}

/// Round trip of one normal record.
pub proof fn lemma_serialized_normal_reparses(
    m: MeshView,
    acc: (u32, u32, u32),
    off: (u32, u32, u32),
    row: (Seq<char>, Seq<char>, Seq<char>),
)
    requires
        is_float_token(row.0),
        is_float_token(row.1),
        is_float_token(row.2),
    ensures
        line_step(m, acc, off, v3_body(seq!['v', 'n'], row)) == Ok::<
            (MeshView, (u32, u32, u32)),
            ErrView,
        >(
            (
                MeshView {
                    positions: m.positions,
                    normals: m.normals.push(row),
                    uvs: m.uvs,
                    colors: m.colors,
                    faces: m.faces,
                },
                acc,
            ),
        ),
{
    assert(no_ws(seq!['v', 'n']));
    if contains_char(seq!['v', 'n'], '#') {
        let i = choose|i: int| 0 <= i < 2 && seq!['v', 'n'][i] == '#';
    }
    lemma_v3_body_tokens(seq!['v', 'n'], row);
    let toks = tokens(v3_body(seq!['v', 'n'], row));
    assert(seq!['v', 'n'].len() == 2 && seq!['v'].len() == 1);
    assert(toks[0] != seq!['v']);
    assert(seq!['v', 'n'][1] == 'n' && seq!['v', 't'][1] == 't');
    assert(toks[0] != seq!['v', 't']);
    assert(all_floats_from(toks, 1));
    assert((row.0, row.1, row.2) == row);
}

/// Round trip of one texture-coordinate record.
pub proof fn lemma_serialized_uv_reparses(
    m: MeshView,
    acc: (u32, u32, u32),
    off: (u32, u32, u32),
    row: (Seq<char>, Seq<char>),
)
    requires
        is_float_token(row.0),
        is_float_token(row.1),
    ensures
        line_step(m, acc, off, vt_body(row)) == Ok::<(MeshView, (u32, u32, u32)), ErrView>(
            (
                MeshView {
                    positions: m.positions,
                    normals: m.normals,
                    uvs: m.uvs.push(row),
                    colors: m.colors,
                    faces: m.faces,
                },
                acc,
            ),
        ),
{
    lemma_vt_body_tokens(row);
    let toks = tokens(vt_body(row));
    assert(seq!['v', 't'].len() == 2 && seq!['v'].len() == 1);
    assert(toks[0] != seq!['v']);
    assert(all_floats_from(toks, 1));
    assert((row.0, row.1) == row);
}

proof fn lemma_token_avoids(t: Seq<char>, c: char)
    requires
        is_float_token(t),
        c == 'o' || c == '\n' || c == '#',
    ensures
        !contains_char(t, c),
{
    lemma_float_token_chars(t);
    if contains_char(t, c) {
        let i = choose|i: int| 0 <= i < t.len() && t[i] == c;
        lemma_scalar_char_tame(t[i]);
    }
}

proof fn lemma_pad_avoids(t: Seq<char>, c: char)
    requires
        !contains_char(t, c),
        c != ' ',
    ensures
        !contains_char(pad_left(t, 7), c),
{
    let sp = spaces(7 - t.len());
    lemma_contains_concat(sp, t, c);
    if contains_char(sp, c) {
        let i = choose|i: int| 0 <= i < sp.len() && #[trigger] sp[i] == c;
        crate::num::lemma_spaces_all_ws(7 - t.len());
    }
}

proof fn lemma_seq_space_avoids(c: char)
    requires
        c != ' ',
    ensures
        !contains_char(seq![' '], c),
{
    if contains_char(seq![' '], c) {
        let i = choose|i: int| 0 <= i < 1 && seq![' '][i] == c;
    }
}

proof fn lemma_v3_line_avoids(kind: Seq<char>, row: (Seq<char>, Seq<char>, Seq<char>), c: char)
    requires
        !contains_char(kind, c),
        c == 'o' || c == '#',
        is_float_token(row.0),
        is_float_token(row.1),
        is_float_token(row.2),
    ensures
        !contains_char(v3_line(kind, row), c),
{
    lemma_token_avoids(row.0, c);
    lemma_token_avoids(row.1, c);
    lemma_token_avoids(row.2, c);
    lemma_pad_avoids(row.0, c);
    lemma_pad_avoids(row.1, c);
    lemma_pad_avoids(row.2, c);
    lemma_seq_space_avoids(c);
    if contains_char(seq!['\n'], c) {
        let i = choose|i: int| 0 <= i < 1 && seq!['\n'][i] == c;
    }
    let p0 = kind + seq![' '];
    let p1 = p0 + pad_left(row.0, 7);
    let p2 = p1 + seq![' '];
    let p3 = p2 + pad_left(row.1, 7);
    let p4 = p3 + seq![' '];
    let p5 = p4 + pad_left(row.2, 7);
    lemma_contains_concat(kind, seq![' '], c);
    lemma_contains_concat(p0, pad_left(row.0, 7), c);
    lemma_contains_concat(p1, seq![' '], c);
    lemma_contains_concat(p2, pad_left(row.1, 7), c);
    lemma_contains_concat(p3, seq![' '], c);
    lemma_contains_concat(p4, pad_left(row.2, 7), c);
    lemma_contains_concat(p5, seq!['\n'], c);
    assert(v3_line(kind, row) == p5 + seq!['\n']);
}

proof fn lemma_vt_line_avoids(row: (Seq<char>, Seq<char>), c: char)
    requires
        c == 'o' || c == '#',
        is_float_token(row.0),
        is_float_token(row.1),
    ensures
        !contains_char(vt_line(row), c),
{
    lemma_token_avoids(row.0, c);
    lemma_token_avoids(row.1, c);
    lemma_pad_avoids(row.0, c);
    lemma_pad_avoids(row.1, c);
    lemma_seq_space_avoids(c);
    if contains_char(seq!['v', 't', ' '], c) {
        let i = choose|i: int| 0 <= i < 3 && seq!['v', 't', ' '][i] == c;
    }
    if contains_char(seq![' ', '\n'], c) {
        let i = choose|i: int| 0 <= i < 2 && seq![' ', '\n'][i] == c;
    }
    let p0 = seq!['v', 't', ' '] + pad_left(row.0, 7);
    let p1 = p0 + seq![' '];
    let p2 = p1 + pad_left(row.1, 7);
    lemma_contains_concat(seq!['v', 't', ' '], pad_left(row.0, 7), c);
    lemma_contains_concat(p0, seq![' '], c);
    lemma_contains_concat(p1, pad_left(row.1, 7), c);
    lemma_contains_concat(p2, seq![' ', '\n'], c);
    assert(vt_line(row) == p2 + seq![' ', '\n']);
}

/// Scalar tokens of every row of a three-column block.
pub open spec fn rows3_wf(rows: Seq<(Seq<char>, Seq<char>, Seq<char>)>) -> bool {
    forall|k: int|
        0 <= k < rows.len() ==> is_float_token(#[trigger] rows[k].0) && is_float_token(rows[k].1)
            && is_float_token(rows[k].2)
}

/// Scalar tokens of every row of a two-column block.
pub open spec fn rows2_wf(rows: Seq<(Seq<char>, Seq<char>)>) -> bool {
    forall|k: int|
        0 <= k < rows.len() ==> is_float_token(#[trigger] rows[k].0) && is_float_token(rows[k].1)
}

proof fn lemma_v3_block_avoids(
    rows: Seq<(Seq<char>, Seq<char>, Seq<char>)>,
    kind: Seq<char>,
    i: int,
    c: char,
)
    requires
        !contains_char(kind, c),
        c == 'o' || c == '#',
        rows3_wf(rows),
    ensures
        !contains_char(v3_lines_from(rows, kind, i), c),
    decreases rows.len() - i,
{
    if i < 0 || i >= rows.len() {
        if contains_char(Seq::<char>::empty(), c) {
            let j = choose|j: int| 0 <= j < 0 && Seq::<char>::empty()[j] == c;
        }
    } else {
        assert(is_float_token(rows[i].0) && is_float_token(rows[i].1) && is_float_token(
            rows[i].2,
        ));
        lemma_v3_line_avoids(kind, rows[i], c);
        lemma_v3_block_avoids(rows, kind, i + 1, c);
        lemma_contains_concat(v3_line(kind, rows[i]), v3_lines_from(rows, kind, i + 1), c);
    }
}

proof fn lemma_vt_block_avoids(rows: Seq<(Seq<char>, Seq<char>)>, i: int, c: char)
    requires
        c == 'o' || c == '#',
        rows2_wf(rows),
    ensures
        !contains_char(vt_lines_from(rows, i), c),
    decreases rows.len() - i,
{
    if i < 0 || i >= rows.len() {
        if contains_char(Seq::<char>::empty(), c) {
            let j = choose|j: int| 0 <= j < 0 && Seq::<char>::empty()[j] == c;
        }
    } else {
        assert(is_float_token(rows[i].0) && is_float_token(rows[i].1));
        lemma_vt_line_avoids(rows[i], c);
        lemma_vt_block_avoids(rows, i + 1, c);
        lemma_contains_concat(vt_line(rows[i]), vt_lines_from(rows, i + 1), c);
    }
}

proof fn lemma_v3_body_avoids_nl(kind: Seq<char>, row: (Seq<char>, Seq<char>, Seq<char>))
    requires
        !contains_char(kind, '\n'),
        is_float_token(row.0),
        is_float_token(row.1),
        is_float_token(row.2),
    ensures
        !contains_char(v3_body(kind, row), '\n'),
{
    lemma_token_avoids(row.0, '\n');
    lemma_token_avoids(row.1, '\n');
    lemma_token_avoids(row.2, '\n');
    lemma_pad_avoids(row.0, '\n');
    lemma_pad_avoids(row.1, '\n');
    lemma_pad_avoids(row.2, '\n');
    lemma_seq_space_avoids('\n');
    let p0 = kind + seq![' '];
    let p1 = p0 + pad_left(row.0, 7);
    let p2 = p1 + seq![' '];
    let p3 = p2 + pad_left(row.1, 7);
    let p4 = p3 + seq![' '];
    lemma_contains_concat(kind, seq![' '], '\n');
    lemma_contains_concat(p0, pad_left(row.0, 7), '\n');
    lemma_contains_concat(p1, seq![' '], '\n');
    lemma_contains_concat(p2, pad_left(row.1, 7), '\n');
    lemma_contains_concat(p3, seq![' '], '\n');
    lemma_contains_concat(p4, pad_left(row.2, 7), '\n');
    assert(v3_body(kind, row) == p4 + pad_left(row.2, 7));
}

proof fn lemma_vt_body_avoids_nl(row: (Seq<char>, Seq<char>))
    requires
        is_float_token(row.0),
        is_float_token(row.1),
    ensures
        !contains_char(vt_body(row), '\n'),
        vt_line(row) == vt_body(row) + seq!['\n'],
{
    lemma_token_avoids(row.0, '\n');
    lemma_token_avoids(row.1, '\n');
    lemma_pad_avoids(row.0, '\n');
    lemma_pad_avoids(row.1, '\n');
    lemma_seq_space_avoids('\n');
    if contains_char(seq!['v', 't', ' '], '\n') {
        let i = choose|i: int| 0 <= i < 3 && seq!['v', 't', ' '][i] == '\n';
    }
    let p0 = seq!['v', 't', ' '] + pad_left(row.0, 7);
    let p1 = p0 + seq![' '];
    let p2 = p1 + pad_left(row.1, 7);
    lemma_contains_concat(seq!['v', 't', ' '], pad_left(row.0, 7), '\n');
    lemma_contains_concat(p0, seq![' '], '\n');
    lemma_contains_concat(p1, pad_left(row.1, 7), '\n');
    lemma_contains_concat(p2, seq![' '], '\n');
    assert(vt_body(row) =~= p2 + seq![' ']);
    assert(vt_line(row) =~= vt_body(row) + seq!['\n']);
}

/// The line bodies (without their line breaks) of a three-column block.
pub open spec fn v3_bodies(
    rows: Seq<(Seq<char>, Seq<char>, Seq<char>)>,
    kind: Seq<char>,
    i: int,
) -> Seq<Seq<char>>
    decreases rows.len() - i,
{
    if i < 0 || i >= rows.len() {
        Seq::empty()
    } else {
        seq![v3_body(kind, rows[i])] + v3_bodies(rows, kind, i + 1)
    }
}

/// The line bodies of a texture-coordinate block; each line body carries the
/// writer's trailing space.
pub open spec fn vt_bodies(rows: Seq<(Seq<char>, Seq<char>)>, i: int) -> Seq<Seq<char>>
    decreases rows.len() - i,
{
    if i < 0 || i >= rows.len() {
        Seq::empty()
    } else {
        seq![vt_body(rows[i])] + vt_bodies(rows, i + 1)
    }
}

proof fn lemma_v3_block_lines(
    rows: Seq<(Seq<char>, Seq<char>, Seq<char>)>,
    kind: Seq<char>,
    i: int,
    rest: Seq<char>,
)
    requires
        rows3_wf(rows),
        !contains_char(kind, '\n'),
    ensures
        split_char_rec(v3_lines_from(rows, kind, i) + rest, '\n', Seq::empty()) == v3_bodies(
            rows,
            kind,
            i,
        ) + split_char_rec(rest, '\n', Seq::empty()),
    decreases rows.len() - i,
{
    if i < 0 || i >= rows.len() {
        assert(v3_lines_from(rows, kind, i) + rest =~= rest);
        assert(v3_bodies(rows, kind, i) + split_char_rec(rest, '\n', Seq::empty())
            =~= split_char_rec(rest, '\n', Seq::empty()));
    } else {
        assert(is_float_token(rows[i].0) && is_float_token(rows[i].1) && is_float_token(
            rows[i].2,
        ));
        let body = v3_body(kind, rows[i]);
        let tail = v3_lines_from(rows, kind, i + 1) + rest;
        assert(v3_line(kind, rows[i]) =~= body + seq!['\n']);
        assert(v3_lines_from(rows, kind, i) + rest =~= body + (seq!['\n'] + tail));
        lemma_v3_body_avoids_nl(kind, rows[i]);
        lemma_split_line(body, '\n', tail, Seq::empty());
        assert(Seq::<char>::empty() + body =~= body);
        lemma_v3_block_lines(rows, kind, i + 1, rest);
        assert(seq![body] + (v3_bodies(rows, kind, i + 1) + split_char_rec(
            rest,
            '\n',
            Seq::empty(),
        )) =~= v3_bodies(rows, kind, i) + split_char_rec(rest, '\n', Seq::empty()));
    }
}

proof fn lemma_vt_block_lines(rows: Seq<(Seq<char>, Seq<char>)>, i: int, rest: Seq<char>)
    requires
        rows2_wf(rows),
    ensures
        split_char_rec(vt_lines_from(rows, i) + rest, '\n', Seq::empty()) == vt_bodies(rows, i)
            + split_char_rec(rest, '\n', Seq::empty()),
    decreases rows.len() - i,
{
    if i < 0 || i >= rows.len() {
        assert(vt_lines_from(rows, i) + rest =~= rest);
        assert(vt_bodies(rows, i) + split_char_rec(rest, '\n', Seq::empty()) =~= split_char_rec(
            rest,
            '\n',
            Seq::empty(),
        ));
    } else {
        assert(is_float_token(rows[i].0) && is_float_token(rows[i].1));
        let body = vt_body(rows[i]);
        let tail = vt_lines_from(rows, i + 1) + rest;
        lemma_vt_body_avoids_nl(rows[i]);
        assert(vt_lines_from(rows, i) + rest =~= body + (seq!['\n'] + tail));
        lemma_split_line(body, '\n', tail, Seq::empty());
        assert(Seq::<char>::empty() + body =~= body);
        lemma_vt_block_lines(rows, i + 1, rest);
        assert(seq![body] + (vt_bodies(rows, i + 1) + split_char_rec(rest, '\n', Seq::empty()))
            =~= vt_bodies(rows, i) + split_char_rec(rest, '\n', Seq::empty()));
    }
}

proof fn lemma_fold_skip1(
    m: MeshView,
    acc: (u32, u32, u32),
    off: (u32, u32, u32),
    lines: Seq<Seq<char>>,
    j: int,
)
    requires
        1 <= j <= lines.len(),
    ensures
        lines_fold(m, acc, off, lines, j) == lines_fold(m, acc, off, lines.skip(1), j - 1),
    decreases lines.len() - j,
{
    if j == lines.len() {
    } else {
        assert(lines.skip(1)[j - 1] == lines[j]);
        match line_step(m, acc, off, lines[j]) {
            Err(_) => {},
            Ok(st) => {
                lemma_fold_skip1(st.0, st.1, off, lines, j + 1);
            },
        }
    }
}

#[verifier::rlimit(50)]
proof fn lemma_fold_append(
    m: MeshView,
    acc: (u32, u32, u32),
    off: (u32, u32, u32),
    a: Seq<Seq<char>>,
    b: Seq<Seq<char>>,
)
    ensures
        lines_fold(m, acc, off, a + b, 0) == (match lines_fold(m, acc, off, a, 0) {
            Err(e) => Err(e),
            Ok(st) => lines_fold(st.0, st.1, off, b, 0),
        }),
    decreases a.len(),
{
    if a.len() == 0 {
        assert(a + b =~= b);
    } else {
        assert((a + b)[0] == a[0]);
        let step = line_step(m, acc, off, a[0]);
        if step is Ok {
            let st = step->Ok_0;
            lemma_fold_skip1(st.0, st.1, off, a + b, 1);
            assert((a + b).skip(1) =~= a.skip(1) + b);
            lemma_fold_append(st.0, st.1, off, a.skip(1), b);
            lemma_fold_skip1(st.0, st.1, off, a, 1);
            assert(lines_fold(m, acc, off, a, 0) == lines_fold(st.0, st.1, off, a.skip(1), 0));
            assert(lines_fold(m, acc, off, a + b, 0) == lines_fold(
                st.0,
                st.1,
                off,
                a.skip(1) + b,
                0,
            ));
        } else {
            assert(lines_fold(m, acc, off, a + b, 0) == lines_fold(m, acc, off, a, 0));
        }
    }
}

proof fn lemma_fold_pos_block(
    m: MeshView,
    acc: (u32, u32, u32),
    off: (u32, u32, u32),
    rows: Seq<(Seq<char>, Seq<char>, Seq<char>)>,
    i: int,
)
    requires
        0 <= i <= rows.len(),
        rows3_wf(rows),
    ensures
        lines_fold(m, acc, off, v3_bodies(rows, seq!['v'], i), 0) == Ok::<
            (MeshView, (u32, u32, u32)),
            ErrView,
        >(
            (
                MeshView {
                    positions: m.positions + rows.skip(i),
                    normals: m.normals,
                    uvs: m.uvs,
                    colors: m.colors,
                    faces: m.faces,
                },
                acc,
            ),
        ),
    decreases rows.len() - i,
{
    if i == rows.len() {
        assert(m.positions + rows.skip(i) =~= m.positions);
        assert(MeshView {
            positions: m.positions + rows.skip(i),
            normals: m.normals,
            uvs: m.uvs,
            colors: m.colors,
            faces: m.faces,
        } =~= m);
    } else {
        assert(is_float_token(rows[i].0) && is_float_token(rows[i].1) && is_float_token(
            rows[i].2,
        ));
        let bodies = v3_bodies(rows, seq!['v'], i);
        assert(bodies[0] == v3_body(seq!['v'], rows[i]));
        lemma_serialized_position_reparses(m, acc, off, rows[i]);
        assert((rows[i].0, rows[i].1, rows[i].2) == rows[i]);
        let m2 = MeshView {
            positions: m.positions.push(rows[i]),
            normals: m.normals,
            uvs: m.uvs,
            colors: m.colors,
            faces: m.faces,
        };
        lemma_fold_skip1(m2, acc, off, bodies, 1);
        assert(bodies.skip(1) =~= v3_bodies(rows, seq!['v'], i + 1));
        lemma_fold_pos_block(m2, acc, off, rows, i + 1);
        assert(m.positions.push(rows[i]) + rows.skip(i + 1) =~= m.positions + rows.skip(i));
    }
}

proof fn lemma_fold_norm_block(
    m: MeshView,
    acc: (u32, u32, u32),
    off: (u32, u32, u32),
    rows: Seq<(Seq<char>, Seq<char>, Seq<char>)>,
    i: int,
)
    requires
        0 <= i <= rows.len(),
        rows3_wf(rows),
    ensures
        lines_fold(m, acc, off, v3_bodies(rows, seq!['v', 'n'], i), 0) == Ok::<
            (MeshView, (u32, u32, u32)),
            ErrView,
        >(
            (
                MeshView {
                    positions: m.positions,
                    normals: m.normals + rows.skip(i),
                    uvs: m.uvs,
                    colors: m.colors,
                    faces: m.faces,
                },
                acc,
            ),
        ),
    decreases rows.len() - i,
{
    if i == rows.len() {
        assert(m.normals + rows.skip(i) =~= m.normals);
        assert(MeshView {
            positions: m.positions,
            normals: m.normals + rows.skip(i),
            uvs: m.uvs,
            colors: m.colors,
            faces: m.faces,
        } =~= m);
    } else {
        assert(is_float_token(rows[i].0) && is_float_token(rows[i].1) && is_float_token(
            rows[i].2,
        ));
        let bodies = v3_bodies(rows, seq!['v', 'n'], i);
        assert(bodies[0] == v3_body(seq!['v', 'n'], rows[i]));
        lemma_serialized_normal_reparses(m, acc, off, rows[i]);
        assert((rows[i].0, rows[i].1, rows[i].2) == rows[i]);
        let m2 = MeshView {
            positions: m.positions,
            normals: m.normals.push(rows[i]),
            uvs: m.uvs,
            colors: m.colors,
            faces: m.faces,
        };
        lemma_fold_skip1(m2, acc, off, bodies, 1);
        assert(bodies.skip(1) =~= v3_bodies(rows, seq!['v', 'n'], i + 1));
        lemma_fold_norm_block(m2, acc, off, rows, i + 1);
        assert(m.normals.push(rows[i]) + rows.skip(i + 1) =~= m.normals + rows.skip(i));
    }
}

proof fn lemma_fold_uv_block(
    m: MeshView,
    acc: (u32, u32, u32),
    off: (u32, u32, u32),
    rows: Seq<(Seq<char>, Seq<char>)>,
    i: int,
)
    requires
        0 <= i <= rows.len(),
        rows2_wf(rows),
    ensures
        lines_fold(m, acc, off, vt_bodies(rows, i), 0) == Ok::<
            (MeshView, (u32, u32, u32)),
            ErrView,
        >(
            (
                MeshView {
                    positions: m.positions,
                    normals: m.normals,
                    uvs: m.uvs + rows.skip(i),
                    colors: m.colors,
                    faces: m.faces,
                },
                acc,
            ),
        ),
    decreases rows.len() - i,
{
    if i == rows.len() {
        assert(m.uvs + rows.skip(i) =~= m.uvs);
        assert(MeshView {
            positions: m.positions,
            normals: m.normals,
            uvs: m.uvs + rows.skip(i),
            colors: m.colors,
            faces: m.faces,
        } =~= m);
    } else {
        assert(is_float_token(rows[i].0) && is_float_token(rows[i].1));
        let bodies = vt_bodies(rows, i);
        assert(bodies[0] == vt_body(rows[i]));
        lemma_serialized_uv_reparses(m, acc, off, rows[i]);
        assert((rows[i].0, rows[i].1) == rows[i]);
        let m2 = MeshView {
            positions: m.positions,
            normals: m.normals,
            uvs: m.uvs.push(rows[i]),
            colors: m.colors,
            faces: m.faces,
        };
        lemma_fold_skip1(m2, acc, off, bodies, 1);
        assert(bodies.skip(1) =~= vt_bodies(rows, i + 1));
        lemma_fold_uv_block(m2, acc, off, rows, i + 1);
        assert(m.uvs.push(rows[i]) + rows.skip(i + 1) =~= m.uvs + rows.skip(i));
    }
}

proof fn lemma_object_name_line_skipped(m: MeshView, acc: (u32, u32, u32), off: (u32, u32, u32))
    ensures
        line_step(m, acc, off, seq!['x']) == Ok::<(MeshView, (u32, u32, u32)), ErrView>((m, acc)),
{
    if contains_char(seq!['x'], '#') {
        let i = choose|i: int| 0 <= i < 1 && seq!['x'][i] == '#';
    }
    assert(seq!['x'].skip(1) =~= Seq::<char>::empty());
    assert(Seq::<char>::empty().push('x') =~= seq!['x']);
    assert(tokens_rec(Seq::<char>::empty(), seq!['x']) == seq![seq!['x']]);
    assert(tokens(seq!['x']) == seq![seq!['x']]);
    assert(seq!['x'] != seq!['v']) by {
        if seq!['x'] == seq!['v'] {
            assert(seq!['x'][0] == seq!['v'][0]);
        }
    }
    assert(seq!['x'] != seq!['f']) by {
        if seq!['x'] == seq!['f'] {
            assert(seq!['x'][0] == seq!['f'][0]);
        }
    }
    assert(seq!['x'].len() == 1 && seq!['v', 't'].len() == 2 && seq!['v', 'n'].len() == 2);
}

proof fn lemma_face_trailer_skipped(m: MeshView, acc: (u32, u32, u32), off: (u32, u32, u32))
    ensures
        line_step(m, acc, off, seq!['f', ' ']) == Ok::<(MeshView, (u32, u32, u32)), ErrView>(
            (m, acc),
        ),
{
    if contains_char(seq!['f', ' '], '#') {
        let i = choose|i: int| 0 <= i < 2 && seq!['f', ' '][i] == '#';
    }
    assert(seq!['f', ' '] =~= seq!['f'] + seq![' ']);
    assert(no_ws(seq!['f'])) by {
        assert(seq!['f'][0] == 'f');
        assert(!crate::text::is_ws_char('f'));
        assert(forall|j: int| 0 <= j < 1 ==> !crate::text::is_ws_char(#[trigger] seq!['f'][j]));
    }
    lemma_tokens_over_word(seq!['f'], seq![' '], Seq::empty());
    assert(Seq::<char>::empty() + seq!['f'] =~= seq!['f']);
    assert(seq![' '].skip(1) =~= Seq::<char>::empty());
    assert(tokens_rec(seq![' '], seq!['f']) == seq![seq!['f']] + tokens_rec(
        Seq::<char>::empty(),
        Seq::<char>::empty(),
    ));
    assert(seq![seq!['f']] + Seq::<Seq<char>>::empty() =~= seq![seq!['f']]);
    assert(tokens(seq!['f', ' ']) == seq![seq!['f']]);
    assert(seq!['f'] != seq!['v']) by {
        if seq!['f'] == seq!['v'] {
            assert(seq!['f'][0] == seq!['v'][0]);
        }
    }
    assert(face_tokens_fold(m, acc, off, seq![seq!['f']], 1) == Ok::<
        (MeshView, (u32, u32, u32)),
        ErrView,
    >((m, acc)));
}

/// The whole-text round trip: serializing a mesh whose scalar tokens are
/// valid — as every parsed mesh's are — and parsing the result again behind
/// an object marker yields exactly one mesh carrying the very same position,
/// texture-coordinate and normal records. Colour records come back empty:
/// the writer's colour block is not a recognized record keyword on the way
/// back in, and no face is claimed, since the writer's face columns do not
/// re-tokenize.
pub proof fn lemma_serialize_then_reparse(m: MeshView)
    requires
        rows3_wf(m.positions),
        rows2_wf(m.uvs),
        rows3_wf(m.normals),
        m.colors.len() == 0,
        m.faces.len() == 0,
    ensures
        parse_all(seq!['o', ' ', 'x', '\n'] + obj_text(m)) == Ok::<Seq<MeshView>, ErrView>(
            seq![
                MeshView {
                    positions: m.positions,
                    normals: m.normals,
                    uvs: m.uvs,
                    colors: Seq::empty(),
                    faces: Seq::empty(),
                },
            ],
        ),
{
    let t = obj_text(m);
    let pb = v3_lines_from(m.positions, seq!['v'], 0);
    let ub = vt_lines_from(m.uvs, 0);
    let nb = v3_lines_from(m.normals, seq!['v', 'n'], 0);
    let ftail: Seq<char> = seq!['f', ' '];
    assert(t =~= pb + (ub + (nb + ftail)));
    // the marker letter never occurs after the marker itself
    assert(!contains_char(seq!['v'], 'o')) by {
        if contains_char(seq!['v'], 'o') {
            let i = choose|i: int| 0 <= i < 1 && seq!['v'][i] == 'o';
        }
    }
    assert(!contains_char(seq!['v', 'n'], 'o')) by {
        if contains_char(seq!['v', 'n'], 'o') {
            let i = choose|i: int| 0 <= i < 2 && seq!['v', 'n'][i] == 'o';
        }
    }
    assert(!contains_char(ftail, 'o')) by {
        if contains_char(ftail, 'o') {
            let i = choose|i: int| 0 <= i < 2 && ftail[i] == 'o';
        }
    }
    assert(!contains_char(seq!['x', '\n'], 'o')) by {
        if contains_char(seq!['x', '\n'], 'o') {
            let i = choose|i: int| 0 <= i < 2 && seq!['x', '\n'][i] == 'o';
        }
    }
    lemma_v3_block_avoids(m.positions, seq!['v'], 0, 'o');
    lemma_vt_block_avoids(m.uvs, 0, 'o');
    lemma_v3_block_avoids(m.normals, seq!['v', 'n'], 0, 'o');
    lemma_contains_concat(nb, ftail, 'o');
    lemma_contains_concat(ub, nb + ftail, 'o');
    lemma_contains_concat(pb, ub + (nb + ftail), 'o');
    lemma_contains_concat(seq!['x', '\n'], t, 'o');
    // the split on the marker gives the discarded head and one chunk
    let full = seq!['o', ' ', 'x', '\n'] + t;
    let chunk = seq!['x', '\n'] + t;
    assert(full.len() >= 2 && full[0] == 'o' && full[1] == ' ');
    assert(full.skip(2) =~= chunk);
    lemma_no_marker_single_chunk(chunk, Seq::empty());
    assert(Seq::<char>::empty() + chunk =~= chunk);
    assert(split_marker(full) == seq![Seq::<char>::empty()] + seq![chunk]);
    let chunks = split_marker(full);
    assert(chunks =~= seq![Seq::<char>::empty(), chunk]);
    assert(chunks.len() == 2 && chunks[1] == chunk);
    // the chunk's lines: the object name, the three blocks, the face trailer
    assert(chunk =~= seq!['x'] + (seq!['\n'] + t));
    assert(!contains_char(seq!['x'], '\n')) by {
        if contains_char(seq!['x'], '\n') {
            let i = choose|i: int| 0 <= i < 1 && seq!['x'][i] == '\n';
        }
    }
    lemma_split_line(seq!['x'], '\n', t, Seq::empty());
    assert(Seq::<char>::empty() + seq!['x'] =~= seq!['x']);
    assert(!contains_char(seq!['v'], '\n')) by {
        if contains_char(seq!['v'], '\n') {
            let i = choose|i: int| 0 <= i < 1 && seq!['v'][i] == '\n';
        }
    }
    assert(!contains_char(seq!['v', 'n'], '\n')) by {
        if contains_char(seq!['v', 'n'], '\n') {
            let i = choose|i: int| 0 <= i < 2 && seq!['v', 'n'][i] == '\n';
        }
    }
    assert(!contains_char(ftail, '\n')) by {
        if contains_char(ftail, '\n') {
            let i = choose|i: int| 0 <= i < 2 && ftail[i] == '\n';
        }
    }
    lemma_v3_block_lines(m.positions, seq!['v'], 0, ub + (nb + ftail));
    lemma_vt_block_lines(m.uvs, 0, nb + ftail);
    lemma_v3_block_lines(m.normals, seq!['v', 'n'], 0, ftail);
    lemma_split_no_delim(ftail, '\n', Seq::empty());
    assert(Seq::<char>::empty() + ftail =~= ftail);
    let pbod = v3_bodies(m.positions, seq!['v'], 0);
    let ubod = vt_bodies(m.uvs, 0);
    let nbod = v3_bodies(m.normals, seq!['v', 'n'], 0);
    let lines = split_char(chunk, '\n');
    assert(lines =~= seq![seq!['x']] + (pbod + (ubod + (nbod + seq![ftail]))));
    // fold the lines: skip, three blocks, skip
    let z3 = (0u32, 0u32, 0u32);
    let m0 = empty_mesh();
    lemma_fold_append(m0, z3, z3, seq![seq!['x']], pbod + (ubod + (nbod + seq![ftail])));
    lemma_object_name_line_skipped(m0, z3, z3);
    assert(seq![seq!['x']][0] == seq!['x']);
    assert(lines_fold(m0, z3, z3, seq![seq!['x']], 1) == Ok::<
        (MeshView, (u32, u32, u32)),
        ErrView,
    >((m0, z3)));
    assert(lines_fold(m0, z3, z3, seq![seq!['x']], 0) == Ok::<
        (MeshView, (u32, u32, u32)),
        ErrView,
    >((m0, z3)));
    lemma_fold_append(m0, z3, z3, pbod, ubod + (nbod + seq![ftail]));
    lemma_fold_pos_block(m0, z3, z3, m.positions, 0);
    assert(m0.positions + m.positions.skip(0) =~= m.positions);
    let m1 = MeshView {
        positions: m.positions,
        normals: m0.normals,
        uvs: m0.uvs,
        colors: m0.colors,
        faces: m0.faces,
    };
    assert(MeshView {
        positions: m0.positions + m.positions.skip(0),
        normals: m0.normals,
        uvs: m0.uvs,
        colors: m0.colors,
        faces: m0.faces,
    } =~= m1);
    lemma_fold_append(m1, z3, z3, ubod, nbod + seq![ftail]);
    lemma_fold_uv_block(m1, z3, z3, m.uvs, 0);
    assert(m1.uvs + m.uvs.skip(0) =~= m.uvs);
    let m2 = MeshView {
        positions: m.positions,
        normals: m1.normals,
        uvs: m.uvs,
        colors: m1.colors,
        faces: m1.faces,
    };
    assert(MeshView {
        positions: m1.positions,
        normals: m1.normals,
        uvs: m1.uvs + m.uvs.skip(0),
        colors: m1.colors,
        faces: m1.faces,
    } =~= m2);
    lemma_fold_append(m2, z3, z3, nbod, seq![ftail]);
    lemma_fold_norm_block(m2, z3, z3, m.normals, 0);
    assert(m2.normals + m.normals.skip(0) =~= m.normals);
    let m3 = MeshView {
        positions: m.positions,
        normals: m.normals,
        uvs: m.uvs,
        colors: m2.colors,
        faces: m2.faces,
    };
    assert(MeshView {
        positions: m2.positions,
        normals: m2.normals + m.normals.skip(0),
        uvs: m2.uvs,
        colors: m2.colors,
        faces: m2.faces,
    } =~= m3);
    lemma_face_trailer_skipped(m3, z3, z3);
    assert(seq![ftail][0] == ftail);
    assert(lines_fold(m3, z3, z3, seq![ftail], 1) == Ok::<
        (MeshView, (u32, u32, u32)),
        ErrView,
    >((m3, z3)));
    assert(lines_fold(m3, z3, z3, seq![ftail], 0) == Ok::<
        (MeshView, (u32, u32, u32)),
        ErrView,
    >((m3, z3)));
    assert(lines_fold(m0, z3, z3, lines, 0) == Ok::<(MeshView, (u32, u32, u32)), ErrView>(
        (m3, z3),
    ));
    // one chunk, then nothing
    assert(chunks_fold(chunks, 2, z3) == Ok::<Seq<MeshView>, ErrView>(Seq::empty()));
    assert(seq![m3] + Seq::<MeshView>::empty() =~= seq![m3]);
    assert(m3 =~= (MeshView {
        positions: m.positions,
        normals: m.normals,
        uvs: m.uvs,
        colors: Seq::empty(),
        faces: Seq::empty(),
    }));
}

/// Every scalar field a mesh carries is a valid scalar token.
pub open spec fn mesh_wf(m: MeshView) -> bool {
    rows3_wf(m.positions) && rows2_wf(m.uvs) && rows3_wf(m.normals) && rows3_wf(m.colors)
}

proof fn lemma_line_step_wf(
    m: MeshView,
    acc: (u32, u32, u32),
    off: (u32, u32, u32),
    line: Seq<char>,
)
    requires
        mesh_wf(m),
        line_step(m, acc, off, line) is Ok,
    ensures
        mesh_wf(line_step(m, acc, off, line)->Ok_0.0),
{
    let out = line_step(m, acc, off, line)->Ok_0.0;
    if line.len() == 0 || contains_char(line, '#') {
    } else {
        let toks = tokens(line);
        if toks.len() == 0 {
        } else if toks[0] == seq!['v'] || toks[0] == seq!['v', 't'] || toks[0] == seq![
            'v',
            'n',
        ] {
            assert(all_floats_from(toks, 1));
            assert forall|k: int| 0 <= k < out.positions.len() implies is_float_token(
                #[trigger] out.positions[k].0,
            ) && is_float_token(out.positions[k].1) && is_float_token(out.positions[k].2) by {
                if k == m.positions.len() {
                    assert(is_float_token(toks[1]) && is_float_token(toks[2]) && is_float_token(
                        toks[3],
                    ));
                } else {
                    assert(is_float_token(m.positions[k].0));
                }
            }
            assert forall|k: int| 0 <= k < out.uvs.len() implies is_float_token(
                #[trigger] out.uvs[k].0,
            ) && is_float_token(out.uvs[k].1) by {
                if k == m.uvs.len() {
                    assert(is_float_token(toks[1]) && is_float_token(toks[2]));
                } else {
                    assert(is_float_token(m.uvs[k].0));
                }
            }
            assert forall|k: int| 0 <= k < out.normals.len() implies is_float_token(
                #[trigger] out.normals[k].0,
            ) && is_float_token(out.normals[k].1) && is_float_token(out.normals[k].2) by {
                if k == m.normals.len() {
                    assert(is_float_token(toks[1]) && is_float_token(toks[2]) && is_float_token(
                        toks[3],
                    ));
                } else {
                    assert(is_float_token(m.normals[k].0));
                }
            }
            assert forall|k: int| 0 <= k < out.colors.len() implies is_float_token(
                #[trigger] out.colors[k].0,
            ) && is_float_token(out.colors[k].1) && is_float_token(out.colors[k].2) by {
                if k == m.colors.len() {
                    assert(is_float_token(toks[4]) && is_float_token(toks[5]) && is_float_token(
                        toks[6],
                    ));
                } else {
                    assert(is_float_token(m.colors[k].0));
                }
            }
        } else if toks[0] == seq!['f'] {
            lemma_face_fold_corrects(m, acc, off, toks, 1);
        }
    }
}

proof fn lemma_lines_fold_wf(
    m: MeshView,
    acc: (u32, u32, u32),
    off: (u32, u32, u32),
    lines: Seq<Seq<char>>,
    i: int,
)
    requires
        mesh_wf(m),
        lines_fold(m, acc, off, lines, i) is Ok,
    ensures
        mesh_wf(lines_fold(m, acc, off, lines, i)->Ok_0.0),
    decreases lines.len() - i,
{
    if 0 <= i < lines.len() {
        let st = line_step(m, acc, off, lines[i])->Ok_0;
        lemma_line_step_wf(m, acc, off, lines[i]);
        lemma_lines_fold_wf(st.0, st.1, off, lines, i + 1);
    }
}

/// Every mesh the parser hands back is well-formed: its scalar fields all
/// match the scalar grammar, so the serializer's output re-parses (see
/// `lemma_serialize_then_reparse`).
pub proof fn lemma_parse_meshes_wf(chunks: Seq<Seq<char>>, i: int, off: (u32, u32, u32))
    requires
        chunks_fold(chunks, i, off) is Ok,
    ensures
        forall|k: int|
            0 <= k < chunks_fold(chunks, i, off)->Ok_0.len() ==> mesh_wf(
                #[trigger] chunks_fold(chunks, i, off)->Ok_0[k],
            ),
    decreases chunks.len() - i,
{
    if 0 <= i < chunks.len() {
        let st = lines_fold(empty_mesh(), (0, 0, 0), off, split_char(chunks[i], '\n'), 0)->Ok_0;
        assert(mesh_wf(empty_mesh()));
        lemma_lines_fold_wf(empty_mesh(), (0, 0, 0), off, split_char(chunks[i], '\n'), 0);
        lemma_parse_meshes_wf(chunks, i + 1, st.1);
        let out = chunks_fold(chunks, i, off)->Ok_0;
        let rest = chunks_fold(chunks, i + 1, st.1)->Ok_0;
        assert forall|k: int| 0 <= k < out.len() implies mesh_wf(#[trigger] out[k]) by {
            if k == 0 {
                assert(out[0] == st.0);
            } else {
                assert(out[k] == rest[k - 1]);
            }
        }
    }
}

/// The same, said of the parse entry point's specification.
pub proof fn lemma_parse_all_wf(s: Seq<char>)
    requires
        parse_all(s) is Ok,
    ensures
        forall|k: int|
            0 <= k < parse_all(s)->Ok_0.len() ==> mesh_wf(#[trigger] parse_all(s)->Ok_0[k]),
{
    lemma_parse_meshes_wf(split_marker(s), 1, (0, 0, 0));
}

} // verus!
