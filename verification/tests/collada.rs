use threedobs::importer::collada::{
    assemble, load_dae, parse_int_list, parse_polylist, parse_triangles, parse_vertices,
    stride, AltitudeMode, ArrayElement, ColladaDocument, Effect, FloatArray, GeometricElement,
    Geometry, InputSemantic, InputShared, InputUnshared, InstanceGeometry, InstanceVisualScene,
    Library, Material, Mesh, Node, NodeType, PolyList, Primitive, Scene, SourceCore, Triangles,
    UpAxis, VertexData, Vertices, VisualScene,
};
use threedobs::aabb::AABB;
use threedobs::importer::ImportError;
use threedobs::mesh::{Normal, TexCoords};
use threedobs::scalar::{Scalar, Value, Vec3};
use threedobs::text::{split_ascii_whitespace, Token};

fn num(v: f32) -> Scalar {
    Scalar::from_bits(v.to_bits())
}

fn vec3(x: f32, y: f32, z: f32) -> Vec3 {
    Vec3 { x: num(x), y: num(y), z: num(z) }
}

fn floats(text: &str) -> ArrayElement {
    let data = split_ascii_whitespace(text.as_bytes())
        .into_iter()
        .map(|w| {
            let number = std::str::from_utf8(&w)
                .ok()
                .and_then(|s| s.parse::<f32>().ok())
                .map(|v| Scalar::from_bits(v.to_bits()));
            Token::new(w, number)
        })
        .collect();
    ArrayElement::FloatArray(FloatArray { data })
}

fn source(id: &str, text: &str) -> SourceCore {
    SourceCore { attr_id: id.as_bytes().to_vec(), array_element: floats(text) }
}

fn shared(semantic: InputSemantic, source: &str, offset: u32) -> InputShared {
    InputShared { attr_offset: offset, attr_semantic: semantic, attr_source: source.as_bytes().to_vec() }
}

fn quad_sources() -> Vec<SourceCore> {
    vec![
        source("pos", " 0 0 0  1 0 0  1 1 0  0 1 0  9 9"),
        source("nor", "0 0 1  0 1 0"),
        source("uv", "0 0  1 0  1 1  0 1  5"),
        SourceCore { attr_id: b"pos".to_vec(), array_element: ArrayElement::IntArray },
    ]
}

fn quad_mesh(primitives: Vec<Primitive>) -> Mesh {
    Mesh {
        sources: quad_sources(),
        vertices: Vertices {
            inputs: vec![InputUnshared {
                attr_semantic: InputSemantic::Position,
                attr_source: b"#pos".to_vec(),
            }],
        },
        primitives,
    }
}

fn document(primitives: Vec<Primitive>) -> ColladaDocument {
    ColladaDocument {
        scene: Some(Scene {
            instance_visual_scene: Some(InstanceVisualScene { attr_url: b"#scene".to_vec() }),
        }),
        libraries: vec![
            Library::Other,
            Library::Geometries(vec![Geometry {
                attr_id: Some(b"geo".to_vec()),
                geometric_element: GeometricElement::Mesh(quad_mesh(primitives)),
            }]),
            Library::Materials(vec![Material { attr_id: Some(b"m".to_vec()) }]),
            Library::Effects(vec![Effect { attr_id: b"e".to_vec() }]),
            Library::VisualScenes(vec![VisualScene {
                attr_id: Some(b"scene".to_vec()),
                nodes: vec![
                    Node {
                        attr_name: Some(b"bones".to_vec()),
                        attr_type: NodeType::Joint,
                        instance_geometry: vec![InstanceGeometry { attr_url: b"#nowhere".to_vec() }],
                    },
                    Node {
                        attr_name: Some(b"plate".to_vec()),
                        attr_type: NodeType::Node,
                        instance_geometry: vec![InstanceGeometry { attr_url: b"#geo".to_vec() }],
                    },
                    Node {
                        attr_name: None,
                        attr_type: NodeType::Node,
                        instance_geometry: vec![InstanceGeometry { attr_url: b"#geo".to_vec() }],
                    },
                ],
            }]),
        ],
    }
}

fn quad_polylist(p: &str, vcount: &str, count: u32, inputs: Vec<InputShared>) -> PolyList {
    PolyList {
        attr_count: count,
        inputs,
        vcount: Some(vcount.as_bytes().to_vec()),
        p: Some(p.as_bytes().to_vec()),
    }
}

fn base_data() -> VertexData {
    let (data, _) = parse_vertices(
        &vec![InputUnshared { attr_semantic: InputSemantic::Position, attr_source: b"#pos".to_vec() }],
        &quad_sources(),
        AABB::empty(),
    )
    .unwrap();
    data
}

#[test]
fn quad_of_a_polylist_gives_two_triangles() {
    let list = quad_polylist("0 1 2 3", "4", 1, vec![shared(InputSemantic::Vertex, "#v", 0)]);
    let mesh = parse_polylist(b"plate".to_vec(), &list, &base_data(), &quad_sources()).unwrap();
    assert_eq!(mesh.name, b"plate".to_vec());
    assert_eq!(mesh.vertices.len(), 4);
    assert_eq!(mesh.indices, vec![0, 1, 2, 0, 2, 3]);
    assert!(mesh.material.is_none());
    let facet = Normal::Facet(vec3(0.0, 0.0, 0.0), vec3(1.0, 0.0, 0.0), vec3(1.0, 1.0, 0.0));
    for v in &mesh.vertices {
        assert_eq!(v.normal, facet);
        assert_eq!(v.tex_coords, TexCoords::zero());
    }
    assert_eq!(mesh.vertices[3].position, vec3(0.0, 1.0, 0.0));
}

#[test]
fn polylist_with_normals_texture_coordinates_and_negative_indices() {
    let inputs = vec![
        shared(InputSemantic::Vertex, "#v", 0),
        shared(InputSemantic::Normal, "#nor", 1),
        shared(InputSemantic::Texcoord, "#uv", 2),
    ];
    let list = quad_polylist("0 0 0  1 1 1  -2 -1 -1   0 0 0  2 0 2  3 1 3  -1 0 0", "3 4", 2, inputs);
    let mesh = parse_polylist(b"n".to_vec(), &list, &base_data(), &quad_sources()).unwrap();
    assert_eq!(mesh.vertices.len(), 7);
    assert_eq!(mesh.indices, vec![0, 1, 2, 3, 4, 5, 3, 5, 6]);
    assert_eq!(mesh.vertices[1].normal, Normal::Given(vec3(0.0, 1.0, 0.0)));
    assert_eq!(mesh.vertices[2].position, vec3(1.0, 1.0, 0.0));
    assert_eq!(mesh.vertices[2].normal, Normal::Given(vec3(0.0, 1.0, 0.0)));
    assert_eq!(mesh.vertices[2].tex_coords, TexCoords { u: num(0.0), v: Value::Plain(num(1.0)) });
    assert_eq!(mesh.vertices[6].position, vec3(0.0, 1.0, 0.0));
    assert_eq!(mesh.vertices[4].tex_coords, TexCoords { u: num(1.0), v: Value::Plain(num(1.0)) });
}

#[test]
fn triangles_take_three_corners_each() {
    let t = Triangles {
        attr_count: 2,
        inputs: vec![shared(InputSemantic::Vertex, "#v", 0), shared(InputSemantic::Normal, "#nor", 1)],
        p: Some(b"0 0 1 0 2 1   0 1 2 1 3 1   0 0".to_vec()),
    };
    let mesh = parse_triangles(b"t".to_vec(), &t, &base_data(), &quad_sources()).unwrap();
    assert_eq!(mesh.vertices.len(), 6);
    assert_eq!(mesh.indices, vec![0, 1, 2, 3, 4, 5]);
    assert_eq!(mesh.vertices[2].position, vec3(1.0, 1.0, 0.0));
    assert_eq!(mesh.vertices[2].normal, Normal::Given(vec3(0.0, 1.0, 0.0)));
    assert_eq!(mesh.vertices[0].normal, Normal::Given(vec3(0.0, 0.0, 1.0)));
    let plain = Triangles {
        attr_count: 1,
        inputs: vec![shared(InputSemantic::Vertex, "#v", 0)],
        p: Some(b"3 2 1".to_vec()),
    };
    let mesh = parse_triangles(b"t".to_vec(), &plain, &base_data(), &quad_sources()).unwrap();
    assert_eq!(mesh.vertices[0].normal, Normal::Given(Vec3::zero()));
    assert_eq!(mesh.vertices[0].position, vec3(0.0, 1.0, 0.0));
}

#[test]
fn primitives_that_fail() {
    let v = || vec![shared(InputSemantic::Vertex, "#v", 0)];
    let poly = |l: PolyList| parse_polylist(Vec::new(), &l, &base_data(), &quad_sources()).unwrap_err();
    assert_eq!(poly(quad_polylist("0 1 2", "3 3", 2, v())), ImportError::IncompleteData);
    assert_eq!(poly(quad_polylist("0 1 2", "2", 1, v())), ImportError::IncompleteData);
    assert_eq!(poly(quad_polylist("0 1 4", "3", 1, v())), ImportError::IndexOutOfRange);
    assert_eq!(poly(quad_polylist("0 1 -5", "3", 1, v())), ImportError::IndexOutOfRange);
    assert_eq!(poly(quad_polylist("0 1 2", "3", 2, v())), ImportError::MalformedDocument);
    assert_eq!(poly(quad_polylist("0 1 x", "3", 1, v())), ImportError::MalformedNumber);
    assert_eq!(poly(quad_polylist("0 1 2", "-3", 1, v())), ImportError::MalformedNumber);
    assert_eq!(
        poly(quad_polylist("0 1 2", "3", 1, vec![shared(InputSemantic::Normal, "#none", 0)])),
        ImportError::MalformedDocument
    );
    assert_eq!(
        poly(quad_polylist("0 1 2", "3", 1, vec![shared(InputSemantic::Normal, "", 0)])),
        ImportError::MalformedDocument
    );
    let mut no_counts = quad_polylist("0 1 2", "3", 1, v());
    no_counts.vcount = None;
    assert_eq!(poly(no_counts), ImportError::MalformedDocument);
    let mut no_p = quad_polylist("0 1 2", "3", 1, v());
    no_p.p = None;
    assert_eq!(poly(no_p), ImportError::MalformedDocument);
    let tri = |p: &str| {
        let t = Triangles { attr_count: 1, inputs: v(), p: Some(p.as_bytes().to_vec()) };
        parse_triangles(Vec::new(), &t, &base_data(), &quad_sources()).unwrap_err()
    };
    assert_eq!(tri("0 1 -1"), ImportError::MalformedNumber);
    assert_eq!(tri("0 1 4"), ImportError::IndexOutOfRange);
    let bad_source = vec![source("pos", "0 0 zero")];
    assert_eq!(
        parse_vertices(
            &vec![InputUnshared { attr_semantic: InputSemantic::Position, attr_source: b"#pos".to_vec() }],
            &bad_source,
            AABB::empty()
        )
        .unwrap_err(),
        ImportError::MalformedNumber
    );
}

#[test]
fn vertices_element_gives_positions_and_grows_the_box() {
    let inputs = vec![
        InputUnshared { attr_semantic: InputSemantic::Position, attr_source: b"#pos".to_vec() },
        InputUnshared { attr_semantic: InputSemantic::Normal, attr_source: b"#nor".to_vec() },
        InputUnshared { attr_semantic: InputSemantic::Texcoord, attr_source: b"#uv".to_vec() },
        InputUnshared { attr_semantic: InputSemantic::Color, attr_source: b"#none".to_vec() },
    ];
    let (data, aabb) = parse_vertices(&inputs, &quad_sources(), AABB::empty()).unwrap();
    assert_eq!(data.positions.len(), 4);
    assert_eq!(data.normals, vec![vec3(0.0, 0.0, 1.0), vec3(0.0, 1.0, 0.0)]);
    assert_eq!(data.tex_coords.len(), 4);
    assert_eq!(data.normal_offset, Some(0));
    assert_eq!(data.texcoord_offset, Some(0));
    assert_eq!(aabb.min, vec3(0.0, 0.0, 0.0));
    assert_eq!(aabb.max, vec3(1.0, 1.0, 0.0));
}

#[test]
fn stride_is_one_more_than_the_largest_offset() {
    assert_eq!(stride(&vec![]), 1);
    assert_eq!(stride(&vec![shared(InputSemantic::Vertex, "", 0)]), 1);
    assert_eq!(
        stride(&vec![shared(InputSemantic::Normal, "", 2), shared(InputSemantic::Color, "", 4), shared(InputSemantic::Vertex, "", 0)]),
        5
    );
    assert_eq!(stride(&vec![shared(InputSemantic::Vertex, "", u32::MAX)]), 0x1_0000_0000);
}

#[test]
fn faces_are_put_together_from_an_index_list() {
    let data = base_data();
    let (vertices, indices) = assemble(&data, &vec![0, 1, 2, 3, 0, 1, 2], 1, &vec![4, 3], true).unwrap();
    assert_eq!(vertices.len(), 7);
    assert_eq!(indices, vec![0, 1, 2, 0, 2, 3, 4, 5, 6]);
    let (vertices, indices) = assemble(&data, &vec![0, 7, 1, 7, 2, 7], 2, &vec![3], false).unwrap();
    assert_eq!(vertices[2].position, vec3(1.0, 1.0, 0.0));
    assert_eq!(vertices[2].normal, Normal::Given(Vec3::zero()));
    assert_eq!(indices, vec![0, 1, 2]);
    let (vertices, indices) = assemble(&data, &vec![0, 1, 2], 1, &vec![], true).unwrap();
    assert!(vertices.is_empty() && indices.is_empty());
}

#[test]
fn lists_of_integers() {
    assert_eq!(parse_int_list(b" 1 -2\n3 ", true), Some(vec![1, -2, 3]));
    assert_eq!(parse_int_list(b"1 -2 3", false), None);
    assert_eq!(parse_int_list(b"4294967295", false), Some(vec![4294967295]));
    assert_eq!(parse_int_list(b"4294967295", true), None);
    assert_eq!(parse_int_list(b"", true), Some(vec![]));
    assert_eq!(parse_int_list(b"1 2.5", true), None);
}

#[test]
fn document_gives_a_sub_mesh_for_each_primitive_of_each_instance() {
    let doc = document(vec![
        Primitive::Lines,
        Primitive::PolyList(quad_polylist("0 1 2 3", "4", 1, vec![shared(InputSemantic::Vertex, "#v", 0)])),
        Primitive::Triangles(Triangles { attr_count: 1, inputs: vec![], p: None }),
        Primitive::Triangles(Triangles { attr_count: 1, inputs: vec![], p: Some(b"0 1 2".to_vec()) }),
        Primitive::TriFans,
    ]);
    let object = load_dae(&doc).unwrap();
    assert_eq!(object.name, b"default_obj".to_vec());
    let names: Vec<Vec<u8>> = object.meshes.iter().map(|m| m.name.clone()).collect();
    assert_eq!(
        names,
        vec![b"plate".to_vec(), b"plate".to_vec(), b"default_mesh".to_vec(), b"default_mesh".to_vec()]
    );
    assert_eq!(object.meshes[0].indices, vec![0, 1, 2, 0, 2, 3]);
    assert_eq!(object.meshes[1].indices, vec![0, 1, 2]);
    assert_eq!(object.aabb.min, vec3(0.0, 0.0, 0.0));
    assert_eq!(object.aabb.max, vec3(1.0, 1.0, 0.0));
    for mesh in &object.meshes {
        assert_eq!(mesh.indices.len() % 3, 0);
        assert!(mesh.indices.iter().all(|i| (*i as usize) < mesh.vertices.len()));
    }
}

#[test]
fn documents_that_fail() {
    let fails = |doc: &ColladaDocument| load_dae(doc).unwrap_err();
    let good = || document(vec![]);
    assert!(load_dae(&good()).unwrap().meshes.is_empty());
    let mut doc = good();
    doc.scene = None;
    let empty = load_dae(&doc).unwrap();
    assert!(empty.meshes.is_empty());
    assert_eq!(f32::from_bits(empty.aabb.max.y.bits), f32::NEG_INFINITY);
    let mut doc = good();
    doc.scene = Some(Scene { instance_visual_scene: None });
    assert_eq!(fails(&doc), ImportError::MalformedDocument);
    let mut doc = good();
    doc.scene = Some(Scene { instance_visual_scene: Some(InstanceVisualScene { attr_url: b"#other".to_vec() }) });
    assert_eq!(fails(&doc), ImportError::MalformedDocument);
    let mut doc = good();
    doc.libraries.push(Library::Materials(vec![Material { attr_id: None }]));
    assert_eq!(fails(&doc), ImportError::MalformedDocument);
    let mut doc = good();
    doc.libraries.push(Library::Geometries(vec![Geometry {
        attr_id: None,
        geometric_element: GeometricElement::Spline,
    }]));
    assert_eq!(fails(&doc), ImportError::MalformedDocument);
    let mut doc = good();
    doc.libraries.push(Library::VisualScenes(vec![VisualScene {
        attr_id: Some(b"scene".to_vec()),
        nodes: vec![Node { attr_name: None, attr_type: NodeType::Joint, instance_geometry: vec![] }],
    }]));
    assert_eq!(fails(&doc), ImportError::MalformedDocument);
    let mut doc = good();
    doc.libraries.push(Library::VisualScenes(vec![VisualScene {
        attr_id: Some(b"scene".to_vec()),
        nodes: vec![Node { attr_name: None, attr_type: NodeType::Node, instance_geometry: vec![] }],
    }]));
    assert_eq!(fails(&doc), ImportError::MalformedDocument);
    let mut doc = good();
    doc.libraries.push(Library::VisualScenes(vec![VisualScene {
        attr_id: Some(b"scene".to_vec()),
        nodes: vec![Node {
            attr_name: None,
            attr_type: NodeType::Node,
            instance_geometry: vec![InstanceGeometry { attr_url: b"#lost".to_vec() }],
        }],
    }]));
    assert_eq!(fails(&doc), ImportError::MalformedDocument);
    let mut doc = good();
    doc.libraries.push(Library::Geometries(vec![Geometry {
        attr_id: Some(b"geo".to_vec()),
        geometric_element: GeometricElement::Brep,
    }]));
    assert!(load_dae(&doc).unwrap().meshes.is_empty());
}

#[test]
fn words_of_the_schema() {
    assert_eq!(UpAxis::from_str("X_UP"), Some(UpAxis::X_UP));
    assert_eq!(UpAxis::from_str("Y_UP"), Some(UpAxis::Y_UP));
    assert_eq!(UpAxis::from_str("Z_UP"), Some(UpAxis::Z_UP));
    assert_eq!(UpAxis::from_str("y_up"), None);
    assert_eq!(AltitudeMode::from_str("absolute"), Some(AltitudeMode::Absolute));
    assert_eq!(AltitudeMode::from_str("relativeToGround"), Some(AltitudeMode::RelativeToGround));
    assert_eq!(AltitudeMode::from_str("relative"), None);
    assert_eq!(NodeType::from_str("NODE"), Some(NodeType::Node));
    assert_eq!(NodeType::from_str("JOINT"), Some(NodeType::Joint));
    assert_eq!(NodeType::from_str("node"), None);
    let all = [
        ("BINORMAL", InputSemantic::Binormal),
        ("COLOR", InputSemantic::Color),
        ("CONTINUITY", InputSemantic::Continuity),
        ("IMAGE", InputSemantic::Image),
        ("INPUT", InputSemantic::Input),
        ("IN_TANGENT", InputSemantic::InTangent),
        ("INTERPOLATION", InputSemantic::Interpolation),
        ("INV_BIND_MATRIX", InputSemantic::INV_BIND_MATRIX),
        ("JOINT", InputSemantic::Joint),
        ("LINEAR_STEPS", InputSemantic::LinearSteps),
        ("MORPH_TARGET", InputSemantic::MorphTarget),
        ("MORPH_WEIGHT", InputSemantic::MorphWeight),
        ("NORMAL", InputSemantic::Normal),
        ("OUTPUT", InputSemantic::Output),
        ("OUT_TANGENT", InputSemantic::OutTangent),
        ("POSITION", InputSemantic::Position),
        ("TANGENT", InputSemantic::Tangent),
        ("TEXBINORMAL", InputSemantic::TexBinormal),
        ("TEXCOORD", InputSemantic::Texcoord),
        ("TEXTANGENT", InputSemantic::TexTangent),
        ("UV", InputSemantic::UV),
        ("VERTEX", InputSemantic::Vertex),
        ("WEIGHT", InputSemantic::Weight),
    ];
    for (word, want) in all {
        assert_eq!(InputSemantic::from_str(word), Some(want));
    }
    assert_eq!(InputSemantic::from_str("Normal"), None);
    assert!(floats("1 2").as_float_array().is_some());
    assert!(ArrayElement::NameArray.as_float_array().is_none());
}
