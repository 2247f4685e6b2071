use wasm_resources::error::FetchError;
use wasm_resources::fetch::FetchOutcome;
use wasm_resources::load::finish_model;
use wasm_resources::mtl::parse_mtl;
use wasm_resources::obj::parse_obj;

const CUBE_OBJ: &[u8] = b"# a flat quad standing in for a cube face\n\
mtllib cube.mtl\n\
o Cube\n\
v 0 0 0\n\
v 1 0 0\n\
v 1 1 0\n\
v 0 1 0\n\
usemtl Material\n\
f 1 2 3 4\n";

const CUBE_MTL: &[u8] = b"newmtl Material\n\
Ns 323.999994\n\
Kd 0.8 0.8 0.8\n";

#[test]
fn parse_mtl_single_material() {
    let mats = parse_mtl(CUBE_MTL).unwrap();
    assert_eq!(mats.len(), 1);
    assert_eq!(mats[0].name, b"Material".to_vec());
    assert_eq!(mats[0].params.len(), 2);
    assert_eq!(mats[0].params[0].key, b"Ns".to_vec());
    assert_eq!(mats[0].params[0].values, vec![b"323.999994".to_vec()]);
    assert_eq!(mats[0].params[1].key, b"Kd".to_vec());
    assert_eq!(mats[0].params[1].values.len(), 3);
}

#[test]
fn parse_mtl_two_materials_in_order() {
    let mats = parse_mtl(b"newmtl A\nKd 1 0 0\nnewmtl B\nKd 0 1 0\n").unwrap();
    assert_eq!(mats.len(), 2);
    assert_eq!(mats[0].name, b"A".to_vec());
    assert_eq!(mats[1].name, b"B".to_vec());
}

#[test]
fn parse_mtl_parameter_before_newmtl_fails() {
    assert_eq!(parse_mtl(b"Kd 1 0 0\n").unwrap_err(), FetchError::ParseError);
}

#[test]
fn parse_mtl_empty_text_defines_nothing() {
    assert_eq!(parse_mtl(b"").unwrap().len(), 0);
    assert_eq!(parse_mtl(b"# only a comment\n\n").unwrap().len(), 0);
}

#[test]
fn parse_obj_single_group_quad() {
    let doc = parse_obj(CUBE_OBJ).unwrap();
    assert_eq!(doc.models.len(), 1);
    assert_eq!(doc.mtl_libraries, vec![b"cube.mtl".to_vec()]);
    let model = &doc.models[0];
    assert_eq!(model.name, b"Cube".to_vec());
    assert_eq!(model.material_name, Some(b"Material".to_vec()));
    assert_eq!(model.material_id, None);
    // The quad is triangulated as a fan over four fresh vertices.
    assert_eq!(model.mesh.positions.len(), 12);
    assert_eq!(model.mesh.indices, vec![0, 1, 2, 0, 2, 3]);
    assert_eq!(model.mesh.positions[0], b"0".to_vec());
    assert_eq!(model.mesh.positions[3], b"1".to_vec());
    assert!(model.mesh.normals.is_empty());
    assert!(model.mesh.texcoords.is_empty());
}

#[test]
fn parse_obj_corner_attributes_fill_parallel_arrays() {
    let text = b"v 0 0 0\nv 1 0 0\nv 0 1 0\n\
vt 0 0\nvt 1 0\nvt 0 1\n\
vn 0 0 1\nvn 0 0 1\nvn 0 0 1\n\
f 1/1/1 2/2/2 3/3/3\n";
    let doc = parse_obj(text).unwrap();
    assert_eq!(doc.models.len(), 1);
    // Geometry before any group directive belongs to an unnamed group.
    assert_eq!(doc.models[0].name, b"".to_vec());
    let mesh = &doc.models[0].mesh;
    assert_eq!(mesh.positions.len(), 9);
    assert_eq!(mesh.texcoords.len(), 6);
    assert_eq!(mesh.normals.len(), 9);
    assert_eq!(mesh.indices, vec![0, 1, 2]);
}

#[test]
fn parse_obj_corner_without_texcoord() {
    let text = b"v 0 0 0\nv 1 0 0\nv 0 1 0\nvn 0 0 1\nf 1//1 2//1 3//1\n";
    let doc = parse_obj(text).unwrap();
    let mesh = &doc.models[0].mesh;
    assert_eq!(mesh.positions.len(), 9);
    assert_eq!(mesh.texcoords.len(), 0);
    assert_eq!(mesh.normals.len(), 9);
}

#[test]
fn parse_obj_five_corner_face_fans_into_three_triangles() {
    let text = b"v 0 0 0\nv 1 0 0\nv 2 1 0\nv 1 2 0\nv 0 1 0\nf 1 2 3 4 5\n";
    let doc = parse_obj(text).unwrap();
    let mesh = &doc.models[0].mesh;
    assert_eq!(mesh.positions.len(), 15);
    assert_eq!(mesh.indices, vec![0, 1, 2, 0, 2, 3, 0, 3, 4]);
}

#[test]
fn parse_obj_two_groups() {
    let text = b"v 0 0 0\nv 1 0 0\nv 0 1 0\n\
o First\nf 1 2 3\no Second\nf 1 2 3\n";
    let doc = parse_obj(text).unwrap();
    assert_eq!(doc.models.len(), 2);
    assert_eq!(doc.models[0].name, b"First".to_vec());
    assert_eq!(doc.models[1].name, b"Second".to_vec());
}

#[test]
fn parse_obj_handles_crlf_and_blank_lines() {
    let text = b"v 0 0 0\r\nv 1 0 0\r\n\r\nv 0 1 0\r\nf 1 2 3\r\n";
    let doc = parse_obj(text).unwrap();
    assert_eq!(doc.models.len(), 1);
    assert_eq!(doc.models[0].mesh.indices.len(), 3);
}

#[test]
fn parse_obj_ignores_unknown_directives() {
    let text = b"s off\nv 0 0 0\nv 1 0 0\nv 0 1 0\nf 1 2 3\n";
    assert!(parse_obj(text).is_ok());
}

#[test]
fn parse_obj_rejects_short_vertex_line() {
    assert_eq!(parse_obj(b"v 1 2\n").unwrap_err(), FetchError::ParseError);
}

#[test]
fn parse_obj_rejects_non_numeric_vertex() {
    assert_eq!(parse_obj(b"v a b c\n").unwrap_err(), FetchError::ParseError);
}

#[test]
fn parse_obj_rejects_face_index_out_of_range() {
    assert_eq!(
        parse_obj(b"v 0 0 0\nv 1 0 0\nf 1 2 3\n").unwrap_err(),
        FetchError::ParseError
    );
}

#[test]
fn parse_obj_rejects_zero_face_index() {
    assert_eq!(
        parse_obj(b"v 0 0 0\nv 1 0 0\nv 0 1 0\nf 0 1 2\n").unwrap_err(),
        FetchError::ParseError
    );
}

#[test]
fn parse_obj_rejects_mixed_corner_shapes() {
    let text = b"v 0 0 0\nv 1 0 0\nv 0 1 0\nvt 0 0\nf 1/1 2 3\n";
    assert_eq!(parse_obj(text).unwrap_err(), FetchError::ParseError);
}

#[test]
fn parse_obj_rejects_face_with_two_corners() {
    assert_eq!(
        parse_obj(b"v 0 0 0\nv 1 0 0\nf 1 2\n").unwrap_err(),
        FetchError::ParseError
    );
}

#[test]
fn fetch_model_returns_one_group_and_its_material() {
    let doc = parse_obj(CUBE_OBJ).unwrap();
    let outcomes = vec![FetchOutcome::Data(CUBE_MTL.to_vec())];
    let (models, materials) = finish_model(doc.models, outcomes).unwrap();
    assert_eq!(models.len(), 1);
    assert_eq!(materials.len(), 1);
    assert_eq!(materials[0].name, b"Material".to_vec());
    assert_eq!(models[0].material_id, Some(0));
    assert_eq!(models[0].name, b"Cube".to_vec());
}

#[test]
fn fetch_model_fails_when_material_library_is_missing() {
    let doc = parse_obj(CUBE_OBJ).unwrap();
    let outcomes = vec![FetchOutcome::Absent];
    assert_eq!(
        finish_model(doc.models, outcomes).unwrap_err(),
        FetchError::NotFound
    );
}

#[test]
fn fetch_model_fails_when_material_library_request_fails() {
    let doc = parse_obj(CUBE_OBJ).unwrap();
    let outcomes = vec![FetchOutcome::Failed];
    assert_eq!(
        finish_model(doc.models, outcomes).unwrap_err(),
        FetchError::NetworkError
    );
}

#[test]
fn fetch_model_fails_when_material_library_is_invalid() {
    let doc = parse_obj(CUBE_OBJ).unwrap();
    let outcomes = vec![FetchOutcome::Data(b"Kd 1 0 0\n".to_vec())];
    assert_eq!(
        finish_model(doc.models, outcomes).unwrap_err(),
        FetchError::ParseError
    );
}

#[test]
fn fetch_model_fails_when_material_library_is_not_text() {
    let doc = parse_obj(CUBE_OBJ).unwrap();
    let outcomes = vec![FetchOutcome::Data(vec![0xff, 0xfe])];
    assert_eq!(
        finish_model(doc.models, outcomes).unwrap_err(),
        FetchError::EncodingError
    );
}

#[test]
fn fetch_model_fails_when_material_name_is_unknown() {
    let doc = parse_obj(CUBE_OBJ).unwrap();
    let outcomes = vec![FetchOutcome::Data(b"newmtl Other\n".to_vec())];
    assert_eq!(
        finish_model(doc.models, outcomes).unwrap_err(),
        FetchError::ParseError
    );
}

#[test]
fn fetch_model_concatenates_libraries_in_order() {
    let text = b"mtllib a.mtl\nmtllib b.mtl\nv 0 0 0\nv 1 0 0\nv 0 1 0\nusemtl Second\nf 1 2 3\n";
    let doc = parse_obj(text).unwrap();
    assert_eq!(doc.mtl_libraries.len(), 2);
    let outcomes = vec![
        FetchOutcome::Data(b"newmtl First\n".to_vec()),
        FetchOutcome::Data(b"newmtl Second\n".to_vec()),
    ];
    let (models, materials) = finish_model(doc.models, outcomes).unwrap();
    assert_eq!(materials.len(), 2);
    assert_eq!(materials[0].name, b"First".to_vec());
    assert_eq!(materials[1].name, b"Second".to_vec());
    assert_eq!(models[0].material_id, Some(1));
}

#[test]
fn model_without_material_stays_unlinked() {
    let text = b"v 0 0 0\nv 1 0 0\nv 0 1 0\nf 1 2 3\n";
    let doc = parse_obj(text).unwrap();
    let (models, materials) = finish_model(doc.models, Vec::new()).unwrap();
    assert_eq!(models.len(), 1);
    assert!(materials.is_empty());
    assert_eq!(models[0].material_id, None);
    assert_eq!(models[0].material_name, None);
}
