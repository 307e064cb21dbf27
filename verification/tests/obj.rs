use threedobs::importer::obj::{
    load_obj, material_libraries, parse_corner, resolve_index, CornerRef, ObjOutcome, ObjParser,
    ObjToken,
};
use threedobs::importer::{ImportError, Material, Object};
use threedobs::mesh::{Normal, TexCoords};
use threedobs::scalar::{Scalar, Value, Vec3};
use threedobs::text::{split_ascii_whitespace, split_lines, Token};

fn num(v: f32) -> Scalar {
    Scalar::from_bits(v.to_bits())
}

fn vec3(x: f32, y: f32, z: f32) -> Vec3 {
    Vec3 { x: num(x), y: num(y), z: num(z) }
}

fn words(line: &[u8]) -> Vec<Token> {
    split_ascii_whitespace(line)
        .into_iter()
        .map(|w| {
            let number = std::str::from_utf8(&w)
                .ok()
                .and_then(|s| s.parse::<f32>().ok())
                .map(|v| Scalar::from_bits(v.to_bits()));
            Token::new(w, number)
        })
        .collect()
}

fn value(v: Value) -> f32 {
    match v {
        Value::Plain(s) => f32::from_bits(s.bits),
        Value::OneMinus(s) => 1.0 - f32::from_bits(s.bits),
    }
}

fn unit_normal(n: Normal) -> [f32; 3] {
    match n {
        Normal::Given(v) => [f32::from_bits(v.x.bits), f32::from_bits(v.y.bits), f32::from_bits(v.z.bits)],
        Normal::Facet(a, b, c) => {
            let f = |s: Scalar| f32::from_bits(s.bits);
            let e1 = [f(b.x) - f(a.x), f(b.y) - f(a.y), f(b.z) - f(a.z)];
            let e2 = [f(c.x) - f(a.x), f(c.y) - f(a.y), f(c.z) - f(a.z)];
            let n = [
                e1[1] * e2[2] - e1[2] * e2[1],
                e1[2] * e2[0] - e1[0] * e2[2],
                e1[0] * e2[1] - e1[1] * e2[0],
            ];
            let len = (n[0] * n[0] + n[1] * n[1] + n[2] * n[2]).sqrt();
            [n[0] / len, n[1] / len, n[2] / len]
        }
    }
}

fn load(text: &str) -> Result<Object, ImportError> {
    let mut parser = ObjParser::new();
    for line in split_lines(text.as_bytes()) {
        parser.feed(&words(&line))?;
    }
    Ok(parser.finish())
}

#[test]
fn triangle_without_normals_gets_the_facet_normal() {
    let object = load("v 0 0 0\nv 1 0 0\nv 0 1 0\nf 1 2 3\n").unwrap();
    assert_eq!(object.meshes.len(), 1);
    let mesh = &object.meshes[0];
    assert_eq!(mesh.vertices.len(), 3);
    assert_eq!(mesh.indices, vec![0, 1, 2]);
    assert_eq!(mesh.name, b"default_mesh".to_vec());
    for v in &mesh.vertices {
        assert_eq!(
            v.normal,
            Normal::Facet(vec3(0.0, 0.0, 0.0), vec3(1.0, 0.0, 0.0), vec3(0.0, 1.0, 0.0))
        );
        assert_eq!(unit_normal(v.normal), [0.0, 0.0, 1.0]);
        assert_eq!(v.tex_coords, TexCoords::zero());
    }
    assert_eq!(mesh.vertices[1].position, vec3(1.0, 0.0, 0.0));
}

#[test]
fn quad_gives_two_triangles() {
    let object = load("v 0 0 0\nv 1 0 0\nv 1 1 0\nv 0 1 0\nf 1 2 3 4\n").unwrap();
    let mesh = &object.meshes[0];
    assert_eq!(mesh.vertices.len(), 4);
    assert_eq!(mesh.indices, vec![0, 1, 2, 0, 2, 3]);
}

#[test]
fn pentagon_gives_three_triangles_from_corner_zero() {
    let object =
        load("v 0 0 0\nv 1 0 0\nv 2 1 0\nv 1 2 0\nv 0 1 0\nf 1 2 3 4 5\nf 1 2 3\n").unwrap();
    let mesh = &object.meshes[0];
    assert_eq!(mesh.vertices.len(), 8);
    assert_eq!(mesh.indices, vec![0, 1, 2, 0, 2, 3, 0, 3, 4, 5, 6, 7]);
}

#[test]
fn negative_references_count_from_the_end() {
    let a = load("v 0 0 0\nv 1 0 0\nv 0 1 0\nf -3 -2 -1\n").unwrap();
    let b = load("v 0 0 0\nv 1 0 0\nv 0 1 0\nf 1 2 3\n").unwrap();
    assert_eq!(a.meshes[0].vertices, b.meshes[0].vertices);
    assert_eq!(a.meshes[0].indices, b.meshes[0].indices);
    assert_eq!(resolve_index(-1, 5), Some(4));
    assert_eq!(resolve_index(5, 5), Some(4));
    assert_eq!(resolve_index(1, 5), Some(0));
    assert_eq!(resolve_index(-5, 5), Some(0));
    assert_eq!(resolve_index(0, 5), None);
    assert_eq!(resolve_index(6, 5), None);
    assert_eq!(resolve_index(-6, 5), None);
    assert_eq!(resolve_index(i32::MIN, 5), None);
}

#[test]
fn texture_v_is_flipped() {
    let object =
        load("v 0 0 0\nv 1 0 0\nv 0 1 0\nvt 0.25 0.75\nvn 0 0 1\nf 1/1/1 2/1/1 3/1/1\n").unwrap();
    let v = &object.meshes[0].vertices[0];
    assert_eq!(v.tex_coords.u, num(0.25));
    assert_eq!(v.tex_coords.v, Value::OneMinus(num(0.75)));
    assert_eq!(value(v.tex_coords.v), 0.25);
    assert_eq!(v.normal, Normal::Given(vec3(0.0, 0.0, 1.0)));
}

#[test]
fn corner_spellings() {
    assert_eq!(
        parse_corner(b"7"),
        Some(CornerRef { position: 7, tex_coord: None, normal: None })
    );
    assert_eq!(
        parse_corner(b"7/8"),
        Some(CornerRef { position: 7, tex_coord: Some(8), normal: None })
    );
    assert_eq!(
        parse_corner(b"7/8/-9"),
        Some(CornerRef { position: 7, tex_coord: Some(8), normal: Some(-9) })
    );
    assert_eq!(
        parse_corner(b"-7//9"),
        Some(CornerRef { position: -7, tex_coord: None, normal: Some(9) })
    );
    assert_eq!(parse_corner(b""), None);
    assert_eq!(parse_corner(b"7/"), None);
    assert_eq!(parse_corner(b"7//"), None);
    assert_eq!(parse_corner(b"1/2/3/4"), None);
    assert_eq!(parse_corner(b"a"), None);
    assert_eq!(parse_corner(b"99999999999"), None);
}

#[test]
fn normals_given_after_a_face_leave_a_zero_fallback() {
    let object = load("v 0 0 0\nv 1 0 0\nv 0 1 0\nvn 0 0 1\nf 1 2//1 3\n").unwrap();
    let vs = &object.meshes[0].vertices;
    assert_eq!(vs[0].normal, Normal::Given(Vec3::zero()));
    assert_eq!(vs[1].normal, Normal::Given(vec3(0.0, 0.0, 1.0)));
}

#[test]
fn groups_and_objects_split_sub_meshes() {
    let text = "o body\nv 0 0 0\nv 1 0 0\nv 0 1 0\nf 1 2 3\ng wheel\nf 3 2 1\no other\nf 1 2 3\n";
    let object = load(text).unwrap();
    assert_eq!(object.name, b"other".to_vec());
    let names: Vec<Vec<u8>> = object.meshes.iter().map(|m| m.name.clone()).collect();
    assert_eq!(names, vec![b"body".to_vec(), b"wheel".to_vec(), b"wheel".to_vec()]);
    for mesh in &object.meshes {
        assert_eq!(mesh.indices, vec![0, 1, 2]);
        assert_eq!(mesh.vertices.len(), 3);
    }
}

#[test]
fn group_without_a_name_is_the_default_mesh() {
    let object = load("g\nv 0 0 0\nv 1 0 0\nv 0 1 0\nf 1 2 3\n").unwrap();
    assert_eq!(object.meshes[0].name, b"default_mesh".to_vec());
    assert_eq!(object.name, Vec::<u8>::new());
}

#[test]
fn empty_file_gives_one_empty_sub_mesh_and_the_empty_box() {
    let object = load("").unwrap();
    assert_eq!(object.meshes.len(), 1);
    assert!(object.meshes[0].vertices.is_empty());
    assert!(object.meshes[0].indices.is_empty());
    assert_eq!(f32::from_bits(object.aabb.min.x.bits), f32::INFINITY);
    assert_eq!(f32::from_bits(object.aabb.max.z.bits), f32::NEG_INFINITY);
}

#[test]
fn box_covers_all_positions_read() {
    let object = load("v -1 2 3\nv 4 -5 6\nv 0 0 -7.5\nf 1 2 3\n").unwrap();
    assert_eq!(object.aabb.min, vec3(-1.0, -5.0, -7.5));
    assert_eq!(object.aabb.max, vec3(4.0, 2.0, 6.0));
}

#[test]
fn errors_of_a_line() {
    let mut p = ObjParser::new();
    assert_eq!(p.feed(&words(b"v 1 2")).unwrap_err(), ImportError::IncompleteData);
    assert_eq!(p.feed(&words(b"vn 1")).unwrap_err(), ImportError::IncompleteData);
    assert_eq!(p.feed(&words(b"vt 1")).unwrap_err(), ImportError::IncompleteData);
    assert_eq!(p.feed(&words(b"v 1 x 3")).unwrap_err(), ImportError::MalformedNumber);
    assert_eq!(p.feed(&words(b"f 1 2")).unwrap_err(), ImportError::IncompleteData);
    assert_eq!(p.feed(&words(b"f 1 2 3")).unwrap_err(), ImportError::IndexOutOfRange);
    assert!(matches!(p.feed(&words(b"v 0 0 0")), Ok(ObjOutcome::Done)));
    assert_eq!(p.feed(&words(b"f 1 1 2")).unwrap_err(), ImportError::IndexOutOfRange);
    assert_eq!(p.feed(&words(b"f 1 1 0")).unwrap_err(), ImportError::IndexOutOfRange);
    assert_eq!(p.feed(&words(b"f 1 1 1/1")).unwrap_err(), ImportError::IndexOutOfRange);
    assert_eq!(p.feed(&words(b"f 1 1 1//1")).unwrap_err(), ImportError::IndexOutOfRange);
    assert_eq!(p.feed(&words(b"f 1 1 1/")).unwrap_err(), ImportError::MalformedNumber);
    assert!(matches!(p.feed(&words(b"f 1 1 1")), Ok(ObjOutcome::Done)));
    assert!(matches!(p.feed(&words(b"")), Ok(ObjOutcome::Done)));
    assert!(matches!(p.feed(&words(b"# a comment")), Ok(ObjOutcome::Done)));
    assert!(matches!(p.feed(&words(b"#v 1 2 3")), Ok(ObjOutcome::Done)));
    assert!(matches!(p.feed(&words(b"  #f 1 2 3")), Ok(ObjOutcome::Done)));
    assert!(matches!(p.feed(&words(b"curv 1 2")), Ok(ObjOutcome::Unknown)));
    assert!(matches!(p.feed(&words(b"s off")), Ok(ObjOutcome::Done)));
    assert!(matches!(p.feed(&words(b"l 1 2")), Ok(ObjOutcome::Done)));
    assert!(matches!(p.feed(&words(b"p 1")), Ok(ObjOutcome::Done)));
    let object = p.finish();
    assert_eq!(object.meshes[0].vertices.len(), 3);
}

#[test]
fn material_libraries_are_named_and_used() {
    let mut p = ObjParser::new();
    match p.feed(&words(b"mtllib a.mtl b.mtl")).unwrap() {
        ObjOutcome::Libraries(names) => {
            assert_eq!(names, vec![b"a.mtl".to_vec(), b"b.mtl".to_vec()])
        }
        _ => panic!("no libraries"),
    }
    let mut red = Material::default();
    red.name = b"red".to_vec();
    let mut red2 = Material::default();
    red2.name = b"red".to_vec();
    red2.specular_exponent = num(5.0);
    p.add_materials(vec![red]);
    p.add_materials(vec![red2]);
    for l in ["v 0 0 0", "v 1 0 0", "v 0 1 0", "usemtl red", "f 1 2 3", "usemtl none", "f 1 2 3"] {
        p.feed(&words(l.as_bytes())).unwrap();
    }
    let object = p.finish();
    assert_eq!(object.meshes.len(), 2);
    let m = object.meshes[0].material.as_ref().unwrap();
    assert_eq!(m.name, b"red".to_vec());
    assert_eq!(m.specular_exponent, num(5.0));
    assert!(object.meshes[1].material.is_none());
}

#[test]
fn directive_words() {
    assert_eq!(ObjToken::from_str("o"), Some(ObjToken::Object));
    assert_eq!(ObjToken::from_str("g"), Some(ObjToken::Group));
    assert_eq!(ObjToken::from_str("v"), Some(ObjToken::Vertex));
    assert_eq!(ObjToken::from_str("vn"), Some(ObjToken::Normal));
    assert_eq!(ObjToken::from_str("vt"), Some(ObjToken::TexCoord));
    assert_eq!(ObjToken::from_str("f"), Some(ObjToken::Face));
    assert_eq!(ObjToken::from_str("p"), Some(ObjToken::Point));
    assert_eq!(ObjToken::from_str("l"), Some(ObjToken::Line));
    assert_eq!(ObjToken::from_str("s"), Some(ObjToken::SmoothShading));
    assert_eq!(ObjToken::from_str("mtllib"), Some(ObjToken::MaterialLib));
    assert_eq!(ObjToken::from_str("usemtl"), Some(ObjToken::MaterialUsage));
    assert_eq!(ObjToken::from_str("V"), None);
    assert_eq!(ObjToken::from_str(""), None);
}

#[test]
fn every_index_is_within_its_sub_mesh() {
    let text = "v 0 0 0\nv 1 0 0\nv 1 1 0\nv 0 1 0\nf 1 2 3 4\ng second\nf -1 -2 -3\nf 1 2 3 4\n";
    let object = load(text).unwrap();
    assert_eq!(object.meshes.len(), 2);
    for mesh in &object.meshes {
        assert_eq!(mesh.indices.len() % 3, 0);
        for i in &mesh.indices {
            assert!((*i as usize) < mesh.vertices.len());
        }
    }
    assert_eq!(object.meshes[1].indices, vec![0, 1, 2, 3, 4, 5, 3, 5, 6]);
}

fn all_lines(text: &str) -> Vec<Vec<Token>> {
    split_lines(text.as_bytes()).iter().map(|l| words(l)).collect()
}

#[test]
fn whole_file_with_its_libraries() {
    let text = "mtllib a.mtl b.mtl\nv 0 0 0\nv 1 0 0\nv 0 1 0\nusemtl blue\nf 1 2 3\nmtllib c.mtl\nusemtl green\nf 1 2 3 1\nusemtl late\nf 3 2 1\n";
    let lines = all_lines(text);
    assert_eq!(
        material_libraries(&lines),
        vec![b"a.mtl".to_vec(), b"b.mtl".to_vec(), b"c.mtl".to_vec()]
    );
    let named = |n: &str| {
        let mut m = Material::default();
        m.name = n.as_bytes().to_vec();
        m
    };
    let libraries = vec![vec![named("red")], vec![named("blue"), named("green")], vec![named("late")]];
    let object = load_obj(&lines, &libraries).unwrap();
    assert_eq!(object.meshes.len(), 3);
    assert_eq!(object.meshes[0].material.as_ref().unwrap().name, b"blue".to_vec());
    assert_eq!(object.meshes[1].material.as_ref().unwrap().name, b"green".to_vec());
    assert_eq!(object.meshes[1].indices, vec![0, 1, 2, 0, 2, 3]);
    assert_eq!(object.meshes[2].material.as_ref().unwrap().name, b"late".to_vec());
    let short = load_obj(&lines, &vec![vec![named("blue")]]).unwrap();
    assert_eq!(short.meshes[0].material.as_ref().unwrap().name, b"blue".to_vec());
    assert!(short.meshes[1].material.is_none());
    assert!(short.meshes[2].material.is_none());
    let early = load_obj(&all_lines("usemtl red\nmtllib a.mtl\nv 0 0 0\nf 1 1 1\n"), &libraries).unwrap();
    assert!(early.meshes[0].material.is_none());
}

#[test]
fn whole_file_is_the_same_as_line_by_line() {
    let text = "o a\nv 0 0 0\nv 1 0 0\nv 1 1 0\nv 0 1 0\nvt 0.5 0.25\nf 1/1 2/1 3/1 4/1\ng b\nf -1 -2 -3\n";
    let whole = load_obj(&all_lines(text), &Vec::new()).unwrap();
    let stepped = load(text).unwrap();
    assert_eq!(whole.name, stepped.name);
    assert_eq!(whole.aabb, stepped.aabb);
    assert_eq!(whole.meshes.len(), stepped.meshes.len());
    for (a, b) in whole.meshes.iter().zip(stepped.meshes.iter()) {
        assert_eq!(a.name, b.name);
        assert_eq!(a.vertices, b.vertices);
        assert_eq!(a.indices, b.indices);
    }
    assert_eq!(whole.meshes[0].indices, vec![0, 1, 2, 0, 2, 3]);
    assert_eq!(
        load_obj(&all_lines("v 0 0 0\nf 1 2 3\nv x\n"), &Vec::new()).unwrap_err(),
        ImportError::IndexOutOfRange
    );
    let triangle = load_obj(&all_lines("v 0 0 0\nv 1 0 0\nv 0 1 0\nf 1 2 3\n"), &Vec::new()).unwrap();
    assert_eq!(triangle.meshes.len(), 1);
    assert_eq!(triangle.meshes[0].vertices.len(), 3);
    assert_eq!(triangle.meshes[0].indices, vec![0, 1, 2]);
    for v in &triangle.meshes[0].vertices {
        assert_eq!(unit_normal(v.normal), [0.0, 0.0, 1.0]);
    }
}
