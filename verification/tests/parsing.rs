use meshobj::parse_obj;
use meshobj::Error;

fn src(s: &str) -> String {
    String::from(s)
}

#[test]
fn empty_input_gives_no_objects() {
    let r = parse_obj(src("")).unwrap();
    assert_eq!(r.len(), 0);
}

#[test]
fn header_without_marker_gives_no_objects() {
    let r = parse_obj(src("# just a header\nv 1 2 3\n")).unwrap();
    assert_eq!(r.len(), 0);
}

#[test]
fn single_object_counts() {
    let r = parse_obj(src("o Thing\nv 0 0 0\nv 1 0 0\nv 0 1 0\nvn 0 0 1\nvn 1 0 0\nvt 0 1\n"))
        .unwrap();
    assert_eq!(r.len(), 1);
    assert_eq!(r[0].positions.len(), 3);
    assert_eq!(r[0].normals.len(), 2);
    assert_eq!(r[0].uvs.len(), 1);
    assert_eq!(r[0].faces.len(), 0);
    assert_eq!(r[0].colors.len(), 0);
}

#[test]
fn position_line_keeps_token_text() {
    let r = parse_obj(src("o x\nv 1.5 -2.25 3e2\n")).unwrap();
    assert_eq!(r[0].positions[0].x, "1.5");
    assert_eq!(r[0].positions[0].y, "-2.25");
    assert_eq!(r[0].positions[0].z, "3e2");
}

#[test]
fn six_fields_populate_positions_and_colors() {
    let r = parse_obj(src("o x\nv 1 2 3 0.5 0.25 0.125\n")).unwrap();
    assert_eq!(r[0].positions.len(), 1);
    assert_eq!(r[0].colors.len(), 1);
    assert_eq!(r[0].colors[0].x, "0.5");
    assert_eq!(r[0].colors[0].z, "0.125");
}

#[test]
fn four_fields_fail_position_color_format() {
    let e = parse_obj(src("o x\nv 1 2 3 4\n")).unwrap_err();
    assert!(matches!(e, Error::PositionColorFormat));
}

#[test]
fn five_fields_fail_position_color_format() {
    let e = parse_obj(src("o x\nv 1 2 3 4 5\n")).unwrap_err();
    assert!(matches!(e, Error::PositionColorFormat));
}

#[test]
fn uv_needs_exactly_two_fields() {
    let e = parse_obj(src("o x\nvt 1\n")).unwrap_err();
    assert!(matches!(e, Error::UVFormat));
    let e2 = parse_obj(src("o x\nvt 1 2 3\n")).unwrap_err();
    assert!(matches!(e2, Error::UVFormat));
}

#[test]
fn normal_needs_exactly_three_fields() {
    let e = parse_obj(src("o x\nvn 1 2\n")).unwrap_err();
    assert!(matches!(e, Error::NormalFormat));
}

#[test]
fn bad_float_token_fails_with_message() {
    let e = parse_obj(src("o x\nv a 2 3\n")).unwrap_err();
    match &e {
        Error::ParseFloat(m) => {
            assert_eq!(m, "Parse Float Error: invalid float literal");
        },
        _ => panic!("wrong error"),
    }
    assert_eq!(e.msg(), "Parse Float Error: invalid float literal");
}

#[test]
fn comment_anywhere_skips_whole_line() {
    let r = parse_obj(src("o x\nv 1 2 3\nv 1.0 2.0 #3.0\n# plain comment\nvt 0 #1\n")).unwrap();
    assert_eq!(r[0].positions.len(), 1);
    assert_eq!(r[0].uvs.len(), 0);
}

#[test]
fn unknown_keywords_are_skipped() {
    let r = parse_obj(src("o x\nusemtl stone\ns off\nvp 1 2\nv 1 2 3\n")).unwrap();
    assert_eq!(r[0].positions.len(), 1);
}

#[test]
fn blank_and_whitespace_lines_are_skipped() {
    let r = parse_obj(src("o x\n\n   \nv 1 2 3\n")).unwrap();
    assert_eq!(r[0].positions.len(), 1);
}

#[test]
fn face_line_parses_triples() {
    let r = parse_obj(src("o x\nv 0 0 0\nf 1/2/3 4/5/6\n")).unwrap();
    assert_eq!(r[0].faces, vec![(1, 2, 3), (4, 5, 6)]);
}

#[test]
fn face_token_with_two_pieces_fails_format() {
    let e = parse_obj(src("o x\nf 1/2\n")).unwrap_err();
    assert!(matches!(e, Error::FaceIndexFormat));
    assert_eq!(e.msg(), "Formatting Error: Face Indeces are not properly formatted!");
}

#[test]
fn face_token_with_letter_fails_int_parse() {
    let e = parse_obj(src("o x\nf 1/a/2\n")).unwrap_err();
    match &e {
        Error::ParseInt(m) => {
            assert_eq!(m, "Parse Int Error: invalid digit found in string");
        },
        _ => panic!("wrong error"),
    }
}

#[test]
fn face_token_with_empty_piece_fails_int_parse() {
    let e = parse_obj(src("o x\nf 1//2\n")).unwrap_err();
    match &e {
        Error::ParseInt(m) => {
            assert_eq!(m, "Parse Int Error: cannot parse integer from empty string");
        },
        _ => panic!("wrong error"),
    }
}

#[test]
fn face_index_overflow_fails_int_parse() {
    let e = parse_obj(src("o x\nf 99999999999/1/1\n")).unwrap_err();
    match &e {
        Error::ParseInt(m) => {
            assert_eq!(m, "Parse Int Error: number too large to fit in target type");
        },
        _ => panic!("wrong error"),
    }
}

#[test]
fn face_index_with_plus_sign_is_accepted() {
    let r = parse_obj(src("o x\nf +1/+2/+3\n")).unwrap();
    assert_eq!(r[0].faces, vec![(1, 2, 3)]);
}

#[test]
fn two_objects_get_offset_correction() {
    let text = "o Obj1\nv 0 0 0\nv 1 0 0\nv 0 1 0\nf 1/0/0 2/0/0 3/0/0\n\
                o Obj2\nv 0 0 1\nv 1 0 1\nv 0 1 1\nf 4/0/0 5/0/0 6/0/0\n";
    let r = parse_obj(src(text)).unwrap();
    assert_eq!(r.len(), 2);
    assert_eq!(r[0].faces, vec![(1, 0, 0), (2, 0, 0), (3, 0, 0)]);
    assert_eq!(r[1].faces, vec![(1, 0, 0), (2, 0, 0), (3, 0, 0)]);
    assert_eq!(r[1].positions.len(), 3);
}

#[test]
fn offset_correction_threads_through_three_objects() {
    let text = "o a\nv 0 0 0\nvt 0 0\nvn 0 0 1\nf 1/1/1\n\
                o b\nv 0 0 0\nvt 0 0\nvn 0 0 1\nf 2/2/2\n\
                o c\nv 0 0 0\nvt 0 0\nvn 0 0 1\nf 3/3/3\n";
    let r = parse_obj(src(text)).unwrap();
    assert_eq!(r.len(), 3);
    assert_eq!(r[0].faces, vec![(1, 1, 1)]);
    assert_eq!(r[1].faces, vec![(1, 1, 1)]);
    assert_eq!(r[2].faces, vec![(1, 1, 1)]);
}

#[test]
fn raw_index_below_offset_wraps() {
    let text = "o a\nf 5/1/1\no b\nf 2/1/1\n";
    let r = parse_obj(src(text)).unwrap();
    assert_eq!(r[1].faces[0].0, 4294967293);
    assert_eq!(r[1].faces[0].1, 0);
    assert_eq!(r[1].faces[0].2, 0);
}

#[test]
fn error_in_later_object_aborts_whole_parse() {
    let e = parse_obj(src("o a\nv 1 2 3\no b\nv x y z\n")).unwrap_err();
    assert!(matches!(e, Error::ParseFloat(_)));
}

#[test]
fn error_messages_for_format_errors() {
    let e = parse_obj(src("o x\nv 1 2\n")).unwrap_err();
    assert_eq!(e.msg(), "Formatting Error: Positions/Vertex Colors are not properly formatted!");
    let e2 = parse_obj(src("o x\nvt 1\n")).unwrap_err();
    assert_eq!(e2.msg(), "Formatting Error: UVs are not properly formatted!");
    let e3 = parse_obj(src("o x\nvn 1\n")).unwrap_err();
    assert_eq!(e3.msg(), "Formatting Error: Normals are not properly formatted!");
}

#[test]
fn special_float_words_are_accepted() {
    let r = parse_obj(src("o x\nv inf -Infinity NaN\n")).unwrap();
    assert_eq!(r[0].positions[0].x, "inf");
    assert_eq!(r[0].positions[0].y, "-Infinity");
    assert_eq!(r[0].positions[0].z, "NaN");
}

#[test]
fn malformed_float_shapes_are_rejected() {
    assert!(parse_obj(src("o x\nv . 1 2\n")).is_err());
    assert!(parse_obj(src("o x\nv 1e 1 2\n")).is_err());
    assert!(parse_obj(src("o x\nv 1e+ 1 2\n")).is_err());
    assert!(parse_obj(src("o x\nv + 1 2\n")).is_err());
    assert!(parse_obj(src("o x\nv 1.2.3 1 2\n")).is_err());
}

#[test]
fn tolerated_float_shapes_are_accepted() {
    let r = parse_obj(src("o x\nv 1. .5 1.e3\nv +4 -0.0 2E-4\n")).unwrap();
    assert_eq!(r[0].positions.len(), 2);
}
