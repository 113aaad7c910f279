use netsync::reader::{
    fix_vertices, get_faces, get_min_vertices, material_block, object_base_name, parse_u32_dec,
    parse_vertex_ref, split_slash_bytes, split_whitespace_bytes, u32_to_dec, VertexRef,
};

fn lines(strs: &[&str]) -> Vec<Vec<u8>> {
    strs.iter().map(|s| s.as_bytes().to_vec()).collect()
}

#[test]
fn get_faces_filters_and_strips() {
    let file = lines(&["o cube", "v 1 2 3", "f 1/1/1 2/2/2", "", "f 3/3/3"]);
    let faces = get_faces(&file);
    assert_eq!(faces, lines(&[" 1/1/1 2/2/2", " 3/3/3"]));
}

#[test]
fn get_faces_of_faceless_file_is_empty() {
    let file = lines(&["o cube", "v 1 2 3", ""]);
    assert!(get_faces(&file).is_empty());
}

#[test]
fn split_whitespace_drops_blanks() {
    let toks = split_whitespace_bytes(&b"  1/1/1  2/2/2 ".to_vec());
    assert_eq!(toks, lines(&["1/1/1", "2/2/2"]));
    assert!(split_whitespace_bytes(&b"   ".to_vec()).is_empty());
}

#[test]
fn split_slash_keeps_empty_parts() {
    assert_eq!(split_slash_bytes(&b"1/2/3".to_vec()), lines(&["1", "2", "3"]));
    assert_eq!(split_slash_bytes(&b"1//3".to_vec()), lines(&["1", "", "3"]));
    assert_eq!(split_slash_bytes(&b"".to_vec()), lines(&[""]));
}

#[test]
fn parse_u32_dec_values() {
    assert_eq!(parse_u32_dec(&b"0".to_vec()), Some(0));
    assert_eq!(parse_u32_dec(&b"40321".to_vec()), Some(40321));
    assert_eq!(parse_u32_dec(&b"4294967295".to_vec()), Some(u32::MAX));
    assert_eq!(parse_u32_dec(&b"4294967296".to_vec()), None);
    assert_eq!(parse_u32_dec(&b"".to_vec()), None);
    assert_eq!(parse_u32_dec(&b"12a".to_vec()), None);
}

#[test]
fn u32_to_dec_values() {
    assert_eq!(u32_to_dec(0), b"0".to_vec());
    assert_eq!(u32_to_dec(7), b"7".to_vec());
    assert_eq!(u32_to_dec(40321), b"40321".to_vec());
    assert_eq!(u32_to_dec(u32::MAX), b"4294967295".to_vec());
}

#[test]
fn parse_vertex_ref_shapes() {
    assert_eq!(
        parse_vertex_ref(&b"1/2/3".to_vec()),
        Some(VertexRef { v: 1, t: 2, n: 3 })
    );
    assert_eq!(parse_vertex_ref(&b"1/2".to_vec()), None);
    assert_eq!(parse_vertex_ref(&b"1//3".to_vec()), None);
    assert_eq!(parse_vertex_ref(&b"1/2/3/4".to_vec()), None);
}

#[test]
fn min_vertices_over_all_faces() {
    let faces = lines(&[" 5/6/7 8/9/10", " 3/12/4"]);
    assert_eq!(get_min_vertices(&faces), Some((3, 6, 4)));
}

#[test]
fn min_vertices_of_no_faces_is_max() {
    let faces: Vec<Vec<u8>> = Vec::new();
    assert_eq!(get_min_vertices(&faces), Some((u32::MAX, u32::MAX, u32::MAX)));
}

#[test]
fn min_vertices_malformed_face() {
    let faces = lines(&[" 5/6/7 bad"]);
    assert_eq!(get_min_vertices(&faces), None);
}

#[test]
fn fix_vertices_renumbers_from_one() {
    let buf = lines(&["o part", "v 1 2 3", "f 5/6/7 8/9/10", "f 6/7/8"]);
    let faces = get_faces(&buf);
    let fixed = fix_vertices(&faces, &buf).unwrap();
    assert_eq!(
        fixed,
        lines(&["o part", "v 1 2 3", "f 1/1/1 4/4/4 ", "f 2/2/2 "])
    );
}

#[test]
fn fix_vertices_chunks_long_faces() {
    let buf = lines(&["f 1/1/1 2/2/2 3/3/3 4/4/4 5/5/5"]);
    let faces = get_faces(&buf);
    let fixed = fix_vertices(&faces, &buf).unwrap();
    assert_eq!(
        fixed,
        lines(&["f 1/1/1 2/2/2 3/3/3 4/4/4 ", "f 5/5/5 "])
    );
}

#[test]
fn fix_vertices_malformed_face_fails_whole_file() {
    let buf = lines(&["f 1/1/1", "f oops"]);
    let faces = get_faces(&buf);
    assert_eq!(fix_vertices(&faces, &buf), None);
}

#[test]
fn object_base_name_strips_dash_suffix_and_digits() {
    assert_eq!(object_base_name(&b"Ball07-3".to_vec()), b"Ball".to_vec());
    assert_eq!(object_base_name(&b"12ring9".to_vec()), b"ring".to_vec());
    assert_eq!(object_base_name(&b"ground".to_vec()), b"ground".to_vec());
    assert_eq!(object_base_name(&b"123".to_vec()), b"".to_vec());
    assert_eq!(object_base_name(&b"".to_vec()), b"".to_vec());
}

#[test]
fn material_block_extracts_named_block() {
    let mtl = lines(&["newmtl a", "Kd 1", "", "newmtl b", "Ks 2", "Ka 3"]);
    assert_eq!(
        material_block(&mtl, &b"a".to_vec()),
        Some(lines(&["newmtl a", "Kd 1"]))
    );
    assert_eq!(
        material_block(&mtl, &b"b".to_vec()),
        Some(lines(&["newmtl b", "Ks 2", "Ka 3"]))
    );
    assert_eq!(material_block(&mtl, &b"c".to_vec()), None);
}
