//! COLLADA: from the parts of a document that hold geometry to sub-meshes.
//!
//! Reading the XML is the caller's work. The document is given as the
//! elements and attributes that matter here, text left as bytes and lists
//! of numbers as the words of their text.
#![allow(non_camel_case_types)]

use vstd::prelude::*;
use vstd::string::StringSliceAdditionalSpecFns;
use crate::aabb::AABB;
use crate::importer::{
    copy_bytes, is_triangle_list, lemma_object_bounds, mesh_views, word_bytes, ImportError,
    ObjMesh, ObjMeshView, Object, ObjectView,
};
use crate::mesh::{drawn_from, fan, lemma_fan_in_range, push_fan, Normal, TexCoords, Vertex};
use crate::scalar::{Value, Vec3};
use crate::text::{
    bytes_eq, i32_of, is_word, parse_i32, parse_u32, split_ascii_whitespace, token_views, u32_of,
    views, words_of, Token, TokenView,
};

verus! {

/// Which axis points up.
#[derive(Clone, Copy, Debug, PartialEq, Eq, Structural)]
pub enum UpAxis {
    X_UP,
    Y_UP,
    Z_UP,
}

impl UpAxis {
    /// The axis that a word names.
    pub open spec fn of_keyword(s: Seq<u8>) -> Option<UpAxis> {
        if s == "X_UP".spec_bytes() {
            Some(UpAxis::X_UP)
        } else if s == "Y_UP".spec_bytes() {
            Some(UpAxis::Y_UP)
        } else if s == "Z_UP".spec_bytes() {
            Some(UpAxis::Z_UP)
        } else {
            None
        }
    }

    /// The axis that a word names.
    pub fn from_str(s: &str) -> (r: Option<UpAxis>)
        ensures
            r == UpAxis::of_keyword(s.spec_bytes()),
    {
        let b = s.as_bytes();
        if is_word(b, "X_UP") {
            Some(UpAxis::X_UP)
        } else if is_word(b, "Y_UP") {
            Some(UpAxis::Y_UP)
        } else if is_word(b, "Z_UP") {
            Some(UpAxis::Z_UP)
        } else {
            None
        }
    }
}

/// How an altitude is meant.
#[derive(Clone, Copy, Debug, PartialEq, Eq, Structural)]
pub enum AltitudeMode {
    RelativeToGround,
    Absolute,
}

impl AltitudeMode {
    /// The mode that a word names.
    pub open spec fn of_keyword(s: Seq<u8>) -> Option<AltitudeMode> {
        if s == "absolute".spec_bytes() {
            Some(AltitudeMode::Absolute)
        } else if s == "relativeToGround".spec_bytes() {
            Some(AltitudeMode::RelativeToGround)
        } else {
            None
        }
    }

    /// The mode that a word names.
    pub fn from_str(s: &str) -> (r: Option<AltitudeMode>)
        ensures
            r == AltitudeMode::of_keyword(s.spec_bytes()),
    {
        let b = s.as_bytes();
        if is_word(b, "absolute") {
            Some(AltitudeMode::Absolute)
        } else if is_word(b, "relativeToGround") {
            Some(AltitudeMode::RelativeToGround)
        } else {
            None
        }
    }
}

/// The kind of a node of a scene.
#[derive(Clone, Copy, Debug, PartialEq, Eq, Structural)]
pub enum NodeType {
    Node,
    Joint,
}

impl NodeType {
    /// The kind that a word names.
    pub open spec fn of_keyword(s: Seq<u8>) -> Option<NodeType> {
        if s == "NODE".spec_bytes() {
            Some(NodeType::Node)
        } else if s == "JOINT".spec_bytes() {
            Some(NodeType::Joint)
        } else {
            None
        }
    }

    /// The kind that a word names.
    pub fn from_str(s: &str) -> (r: Option<NodeType>)
        ensures
            r == NodeType::of_keyword(s.spec_bytes()),
    {
        let b = s.as_bytes();
        if is_word(b, "NODE") {
            Some(NodeType::Node)
        } else if is_word(b, "JOINT") {
            Some(NodeType::Joint)
        } else {
            None
        }
    }
}

/// What the values of an input mean.
#[derive(Clone, Copy, Debug, PartialEq, Eq, Structural)]
pub enum InputSemantic {
    Binormal,
    Color,
    Continuity,
    Image,
    Input,
    InTangent,
    Interpolation,
    INV_BIND_MATRIX,
    Joint,
    LinearSteps,
    MorphTarget,
    MorphWeight,
    Normal,
    Output,
    OutTangent,
    Position,
    Tangent,
    TexBinormal,
    Texcoord,
    TexTangent,
    UV,
    Vertex,
    Weight,
}

impl InputSemantic {
    /// The meaning that a word names.
    pub open spec fn of_keyword(s: Seq<u8>) -> Option<InputSemantic> {
        if s == "BINORMAL".spec_bytes() {
            Some(InputSemantic::Binormal)
        } else if s == "COLOR".spec_bytes() {
            Some(InputSemantic::Color)
        } else if s == "CONTINUITY".spec_bytes() {
            Some(InputSemantic::Continuity)
        } else if s == "IMAGE".spec_bytes() {
            Some(InputSemantic::Image)
        } else if s == "INPUT".spec_bytes() {
            Some(InputSemantic::Input)
        } else if s == "IN_TANGENT".spec_bytes() {
            Some(InputSemantic::InTangent)
        } else if s == "INTERPOLATION".spec_bytes() {
            Some(InputSemantic::Interpolation)
        } else if s == "INV_BIND_MATRIX".spec_bytes() {
            Some(InputSemantic::INV_BIND_MATRIX)
        } else if s == "JOINT".spec_bytes() {
            Some(InputSemantic::Joint)
        } else if s == "LINEAR_STEPS".spec_bytes() {
            Some(InputSemantic::LinearSteps)
        } else if s == "MORPH_TARGET".spec_bytes() {
            Some(InputSemantic::MorphTarget)
        } else if s == "MORPH_WEIGHT".spec_bytes() {
            Some(InputSemantic::MorphWeight)
        } else if s == "NORMAL".spec_bytes() {
            Some(InputSemantic::Normal)
        } else if s == "OUTPUT".spec_bytes() {
            Some(InputSemantic::Output)
        } else if s == "OUT_TANGENT".spec_bytes() {
            Some(InputSemantic::OutTangent)
        } else if s == "POSITION".spec_bytes() {
            Some(InputSemantic::Position)
        } else if s == "TANGENT".spec_bytes() {
            Some(InputSemantic::Tangent)
        } else if s == "TEXBINORMAL".spec_bytes() {
            Some(InputSemantic::TexBinormal)
        } else if s == "TEXCOORD".spec_bytes() {
            Some(InputSemantic::Texcoord)
        } else if s == "TEXTANGENT".spec_bytes() {
            Some(InputSemantic::TexTangent)
        } else if s == "UV".spec_bytes() {
            Some(InputSemantic::UV)
        } else if s == "VERTEX".spec_bytes() {
            Some(InputSemantic::Vertex)
        } else if s == "WEIGHT".spec_bytes() {
            Some(InputSemantic::Weight)
        } else {
            None
        }
    }

    /// The meaning that a word names.
    pub fn from_str(s: &str) -> (r: Option<InputSemantic>)
        ensures
            r == InputSemantic::of_keyword(s.spec_bytes()),
    {
        let b = s.as_bytes();
        if is_word(b, "BINORMAL") {
            Some(InputSemantic::Binormal)
        } else if is_word(b, "COLOR") {
            Some(InputSemantic::Color)
        } else if is_word(b, "CONTINUITY") {
            Some(InputSemantic::Continuity)
        } else if is_word(b, "IMAGE") {
            Some(InputSemantic::Image)
        } else if is_word(b, "INPUT") {
            Some(InputSemantic::Input)
        } else if is_word(b, "IN_TANGENT") {
            Some(InputSemantic::InTangent)
        } else if is_word(b, "INTERPOLATION") {
            Some(InputSemantic::Interpolation)
        } else if is_word(b, "INV_BIND_MATRIX") {
            Some(InputSemantic::INV_BIND_MATRIX)
        } else if is_word(b, "JOINT") {
            Some(InputSemantic::Joint)
        } else if is_word(b, "LINEAR_STEPS") {
            Some(InputSemantic::LinearSteps)
        } else if is_word(b, "MORPH_TARGET") {
            Some(InputSemantic::MorphTarget)
        } else if is_word(b, "MORPH_WEIGHT") {
            Some(InputSemantic::MorphWeight)
        } else if is_word(b, "NORMAL") {
            Some(InputSemantic::Normal)
        } else if is_word(b, "OUTPUT") {
            Some(InputSemantic::Output)
        } else if is_word(b, "OUT_TANGENT") {
            Some(InputSemantic::OutTangent)
        } else if is_word(b, "POSITION") {
            Some(InputSemantic::Position)
        } else if is_word(b, "TANGENT") {
            Some(InputSemantic::Tangent)
        } else if is_word(b, "TEXBINORMAL") {
            Some(InputSemantic::TexBinormal)
        } else if is_word(b, "TEXCOORD") {
            Some(InputSemantic::Texcoord)
        } else if is_word(b, "TEXTANGENT") {
            Some(InputSemantic::TexTangent)
        } else if is_word(b, "UV") {
            Some(InputSemantic::UV)
        } else if is_word(b, "VERTEX") {
            Some(InputSemantic::Vertex)
        } else if is_word(b, "WEIGHT") {
            Some(InputSemantic::Weight)
        } else {
            None
        }
    }
}

/// The numbers of a `float_array`, as the words of its text.
#[derive(Debug)]
pub struct FloatArray {
    pub data: Vec<Token>,
}

/// The array of a source. Only an array of numbers is read.
#[derive(Debug)]
pub enum ArrayElement {
    BoolArray,
    FloatArray(FloatArray),
    IDREFArray,
    IntArray,
    NameArray,
    SIDREFArray,
}

impl ArrayElement {
    /// The array of numbers, where the array is one.
    pub fn as_float_array(&self) -> (r: Option<&FloatArray>)
        ensures
            match self {
                ArrayElement::FloatArray(a) => r == Some(a),
                _ => r is None,
            },
    {
        match self {
            ArrayElement::FloatArray(float_array) => Some(float_array),
            _ => None,
        }
    }
}

/// A `source`: an array under an identifier.
#[derive(Debug)]
pub struct SourceCore {
    pub attr_id: Vec<u8>,
    pub array_element: ArrayElement,
}

/// An `input` of the `vertices` element.
#[derive(Debug)]
pub struct InputUnshared {
    pub attr_semantic: InputSemantic,
    pub attr_source: Vec<u8>,
}

/// An `input` of a primitive: `attr_offset` is its place among the
/// indices of one corner.
#[derive(Debug)]
pub struct InputShared {
    pub attr_offset: u32,
    pub attr_semantic: InputSemantic,
    pub attr_source: Vec<u8>,
}

/// A `vertices` element.
#[derive(Debug)]
pub struct Vertices {
    pub inputs: Vec<InputUnshared>,
}

/// A `triangles` element: `p` is the text of its index list.
#[derive(Debug)]
pub struct Triangles {
    pub attr_count: u32,
    pub inputs: Vec<InputShared>,
    pub p: Option<Vec<u8>>,
}

/// A `polylist` element: `vcount` is the text of the list of corner
/// counts, `p` that of the index list.
#[derive(Debug)]
pub struct PolyList {
    pub attr_count: u32,
    pub inputs: Vec<InputShared>,
    pub vcount: Option<Vec<u8>>,
    pub p: Option<Vec<u8>>,
}

/// A primitive of a mesh. Only triangles and polygon lists are read.
#[derive(Debug)]
pub enum Primitive {
    Lines,
    LineStrips,
    Polygons,
    PolyList(PolyList),
    Triangles(Triangles),
    TriFans,
    TriStrips,
}

/// A `mesh` element.
#[derive(Debug)]
pub struct Mesh {
    pub sources: Vec<SourceCore>,
    pub vertices: Vertices,
    pub primitives: Vec<Primitive>,
}

/// What a `geometry` holds. Only a mesh is read.
#[derive(Debug)]
pub enum GeometricElement {
    ConvexMesh,
    Mesh(Mesh),
    Spline,
    Brep,
}

/// A `geometry` element.
#[derive(Debug)]
pub struct Geometry {
    pub attr_id: Option<Vec<u8>>,
    pub geometric_element: GeometricElement,
}

/// An `instance_geometry` element: `attr_url` is `#` and the identifier of
/// a geometry.
#[derive(Debug)]
pub struct InstanceGeometry {
    pub attr_url: Vec<u8>,
}

/// A `node` of a scene.
#[derive(Debug)]
pub struct Node {
    pub attr_name: Option<Vec<u8>>,
    pub attr_type: NodeType,
    pub instance_geometry: Vec<InstanceGeometry>,
}

/// A `visual_scene` element.
#[derive(Debug)]
pub struct VisualScene {
    pub attr_id: Option<Vec<u8>>,
    pub nodes: Vec<Node>,
}

/// A `material` element, of which only the identifier is read.
#[derive(Debug)]
pub struct Material {
    pub attr_id: Option<Vec<u8>>,
}

/// An `effect` element, of which only the identifier is read.
#[derive(Debug)]
pub struct Effect {
    pub attr_id: Vec<u8>,
}

/// A library of the document.
#[derive(Debug)]
pub enum Library {
    VisualScenes(Vec<VisualScene>),
    Geometries(Vec<Geometry>),
    Materials(Vec<Material>),
    Effects(Vec<Effect>),
    Other,
}

/// An `instance_visual_scene` element: `attr_url` is `#` and the
/// identifier of a scene.
#[derive(Debug)]
pub struct InstanceVisualScene {
    pub attr_url: Vec<u8>,
}

/// The `scene` element.
#[derive(Debug)]
pub struct Scene {
    pub instance_visual_scene: Option<InstanceVisualScene>,
}

/// A document.
#[derive(Debug)]
pub struct ColladaDocument {
    pub scene: Option<Scene>,
    pub libraries: Vec<Library>,
}

/// The integers that the words of a text write, if each writes one:
/// `i32` numbers where `signed`, else `u32` numbers.
pub open spec fn int_list(text: Seq<u8>, signed: bool) -> Option<Seq<i64>> {
    let words = words_of(text);
    if forall|i: int| 0 <= i < words.len() ==> int_word(#[trigger] words[i], signed) is Some {
        Some(Seq::new(words.len(), |i: int| int_word(words[i], signed).unwrap()))
    } else {
        None
    }
}

/// The integer that a word writes: an `i32` where `signed`, else a `u32`.
pub open spec fn int_word(word: Seq<u8>, signed: bool) -> Option<i64> {
    if signed {
        match i32_of(word) {
            Some(v) => Some(v as i64),
            None => None,
        }
    } else {
        match u32_of(word) {
            Some(v) => Some(v as i64),
            None => None,
        }
    }
}

/// Reads a list of integers.
pub fn parse_int_list(text: &[u8], signed: bool) -> (r: Option<Vec<i64>>)
    ensures
        match r {
            Some(v) => int_list(text@, signed) == Some(v@),
            None => int_list(text@, signed) is None,
        },
{
    let words = split_ascii_whitespace(text);
    let ghost ws = words_of(text@);
    let mut out: Vec<i64> = Vec::new();
    let mut i: usize = 0;
    while i < words.len()
        invariant
            i <= words@.len(),
            views(words@) == ws,
            ws == words_of(text@),
            out@.len() == i,
            forall|k: int| 0 <= k < i ==> int_word(#[trigger] ws[k], signed) == Some(out@[k]),
        decreases words@.len() - i,
    {
        assert(ws[i as int] == words@[i as int]@);
        let v: Option<i64> = if signed {
            match parse_i32(words[i].as_slice()) {
                Some(v) => Some(v as i64),
                None => None,
            }
        } else {
            match parse_u32(words[i].as_slice()) {
                Some(v) => Some(v as i64),
                None => None,
            }
        };
        match v {
            Some(v) => {
                out.push(v);
            },
            None => {
                assert(int_word(ws[i as int], signed) is None);
                return None;
            },
        }
        i += 1;
    }
    assert(views(words@).len() == words@.len());
    assert(out@ =~= Seq::new(ws.len(), |i: int| int_word(ws[i], signed).unwrap()));
    Some(out)
}

/// The vectors that a list of numbers gives, three numbers each; numbers
/// left over are passed over. None where a word does not write a number.
pub open spec fn vec3_chunks(tokens: Seq<TokenView>) -> Option<Seq<Vec3>> {
    let n = tokens.len() / 3;
    if forall|i: int| 0 <= i < 3 * n ==> (#[trigger] tokens[i]).number is Some {
        Some(
            Seq::new(
                n,
                |k: int|
                    Vec3 {
                        x: tokens[3 * k].number.unwrap(),
                        y: tokens[3 * k + 1].number.unwrap(),
                        z: tokens[3 * k + 2].number.unwrap(),
                    },
            ),
        )
    } else {
        None
    }
}

/// The texture coordinates that a list of numbers gives, two numbers
/// each; a number left over is passed over.
pub open spec fn pair_chunks(tokens: Seq<TokenView>) -> Option<Seq<TexCoords>> {
    let n = tokens.len() / 2;
    if forall|i: int| 0 <= i < 2 * n ==> (#[trigger] tokens[i]).number is Some {
        Some(
            Seq::new(
                n,
                |k: int|
                    TexCoords {
                        u: tokens[2 * k].number.unwrap(),
                        v: Value::Plain(tokens[2 * k + 1].number.unwrap()),
                    },
            ),
        )
    } else {
        None
    }
}

fn read_vec3_chunks(tokens: &Vec<Token>) -> (r: Option<Vec<Vec3>>)
    ensures
        match r {
            Some(v) => vec3_chunks(token_views(tokens@)) == Some(v@),
            None => vec3_chunks(token_views(tokens@)) is None,
        },
{
    let ghost tv = token_views(tokens@);
    let len: usize = tokens.len();
    let n: usize = len / 3;
    let mut out: Vec<Vec3> = Vec::new();
    let mut k: usize = 0;
    while k < n
        invariant
            len == tokens@.len(),
            n == tokens@.len() / 3,
            tv == token_views(tokens@),
            k <= n,
            out@.len() == k,
            forall|i: int| 0 <= i < 3 * k ==> (#[trigger] tv[i]).number is Some,
            forall|j: int|
                0 <= j < k ==> (#[trigger] out@[j]) == (Vec3 {
                    x: tv[3 * j].number.unwrap(),
                    y: tv[3 * j + 1].number.unwrap(),
                    z: tv[3 * j + 2].number.unwrap(),
                }),
        decreases n - k,
    {
        let x = tokens[3 * k].number;
        let y = tokens[3 * k + 1].number;
        let z = tokens[3 * k + 2].number;
        assert(tv[3 * k].number == x && tv[3 * k + 1].number == y && tv[3 * k + 2].number == z);
        match (x, y, z) {
            (Some(x), Some(y), Some(z)) => {
                out.push(Vec3 { x, y, z });
            },
            _ => {
                return None;
            },
        }
        k += 1;
    }
    assert(out@ =~= vec3_chunks(tv).unwrap());
    Some(out)
}

fn read_pair_chunks(tokens: &Vec<Token>) -> (r: Option<Vec<TexCoords>>)
    ensures
        match r {
            Some(v) => pair_chunks(token_views(tokens@)) == Some(v@),
            None => pair_chunks(token_views(tokens@)) is None,
        },
{
    let ghost tv = token_views(tokens@);
    let len: usize = tokens.len();
    let n: usize = len / 2;
    let mut out: Vec<TexCoords> = Vec::new();
    let mut k: usize = 0;
    while k < n
        invariant
            len == tokens@.len(),
            n == tokens@.len() / 2,
            tv == token_views(tokens@),
            k <= n,
            out@.len() == k,
            forall|i: int| 0 <= i < 2 * k ==> (#[trigger] tv[i]).number is Some,
            forall|j: int|
                0 <= j < k ==> (#[trigger] out@[j]) == (TexCoords {
                    u: tv[2 * j].number.unwrap(),
                    v: Value::Plain(tv[2 * j + 1].number.unwrap()),
                }),
        decreases n - k,
    {
        let u = tokens[2 * k].number;
        let v = tokens[2 * k + 1].number;
        assert(tv[2 * k].number == u && tv[2 * k + 1].number == v);
        match (u, v) {
            (Some(u), Some(v)) => {
                out.push(TexCoords { u, v: Value::Plain(v) });
            },
            _ => {
                return None;
            },
        }
        k += 1;
    }
    assert(out@ =~= pair_chunks(tv).unwrap());
    Some(out)
}

/// The numbers of the source that a reference names: those of the last
/// source with an array of numbers whose identifier is the reference
/// without its first byte.
pub open spec fn find_source(sources: Seq<SourceCore>, url: Seq<u8>) -> Option<Seq<TokenView>>
    decreases sources.len(),
{
    if sources.len() == 0 || url.len() == 0 {
        None
    } else {
        match sources.last().array_element {
            ArrayElement::FloatArray(a) if sources.last().attr_id@ == url.skip(1) => Some(
                token_views(a.data@),
            ),
            _ => find_source(sources.drop_last(), url),
        }
    }
}

fn lookup_source<'a>(sources: &'a Vec<SourceCore>, url: &Vec<u8>) -> (r: Option<&'a Vec<Token>>)
    ensures
        match r {
            Some(t) => find_source(sources@, url@) == Some(token_views(t@)),
            None => find_source(sources@, url@) is None,
        },
{
    if url.len() == 0 {
        return None;
    }
    let id = crate::text::copy_range(url.as_slice(), 1, url.len());
    assert(id@ == url@.skip(1));
    let mut i: usize = sources.len();
    assert(sources@.take(i as int) =~= sources@);
    while i > 0
        invariant
            i <= sources@.len(),
            url@.len() > 0,
            id@ == url@.skip(1),
            find_source(sources@, url@) == find_source(sources@.take(i as int), url@),
        decreases i,
    {
        i -= 1;
        assert(sources@.take(i + 1).last() == sources@[i as int]);
        assert(sources@.take(i + 1).drop_last() =~= sources@.take(i as int));
        match &sources[i].array_element {
            ArrayElement::FloatArray(a) => {
                if bytes_eq(sources[i].attr_id.as_slice(), id.as_slice()) {
                    return Some(&a.data);
                }
            },
            _ => {},
        }
    }
    None
}

/// The attributes of the vertices of a mesh: the lists of positions,
/// normals and texture coordinates, and the place of the normal's and of
/// the texture coordinate's index among the indices of one corner, where
/// the mesh has them.
#[derive(Debug)]
pub struct VertexData {
    pub positions: Vec<Vec3>,
    pub normals: Vec<Vec3>,
    pub tex_coords: Vec<TexCoords>,
    pub normal_offset: Option<u32>,
    pub texcoord_offset: Option<u32>,
}

/// What a [`VertexData`] holds.
pub struct VertexDataView {
    pub positions: Seq<Vec3>,
    pub normals: Seq<Vec3>,
    pub tex_coords: Seq<TexCoords>,
    pub normal_offset: Option<u32>,
    pub texcoord_offset: Option<u32>,
}

impl View for VertexData {
    type V = VertexDataView;

    open spec fn view(&self) -> VertexDataView {
        VertexDataView {
            positions: self.positions@,
            normals: self.normals@,
            tex_coords: self.tex_coords@,
            normal_offset: self.normal_offset,
            texcoord_offset: self.texcoord_offset,
        }
    }
}

/// The vectors of the source that a reference names. A source that is
/// missing is `MalformedDocument`, a word that writes no number
/// `MalformedNumber`.
pub open spec fn source_vec3(sources: Seq<SourceCore>, url: Seq<u8>) -> Result<
    Seq<Vec3>,
    ImportError,
> {
    match find_source(sources, url) {
        None => Err(ImportError::MalformedDocument),
        Some(t) => match vec3_chunks(t) {
            Some(v) => Ok(v),
            None => Err(ImportError::MalformedNumber),
        },
    }
}

/// The texture coordinates of the source that a reference names.
pub open spec fn source_pairs(sources: Seq<SourceCore>, url: Seq<u8>) -> Result<
    Seq<TexCoords>,
    ImportError,
> {
    match find_source(sources, url) {
        None => Err(ImportError::MalformedDocument),
        Some(t) => match pair_chunks(t) {
            Some(v) => Ok(v),
            None => Err(ImportError::MalformedNumber),
        },
    }
}

fn read_source_vec3(sources: &Vec<SourceCore>, url: &Vec<u8>) -> (r: Result<Vec<Vec3>, ImportError>)
    ensures
        match r {
            Ok(v) => source_vec3(sources@, url@) == Ok::<Seq<Vec3>, ImportError>(v@),
            Err(e) => source_vec3(sources@, url@) == Err::<Seq<Vec3>, ImportError>(e),
        },
{
    match lookup_source(sources, url) {
        None => Err(ImportError::MalformedDocument),
        Some(t) => match read_vec3_chunks(t) {
            Some(v) => Ok(v),
            None => Err(ImportError::MalformedNumber),
        },
    }
}

fn read_source_pairs(sources: &Vec<SourceCore>, url: &Vec<u8>) -> (r: Result<
    Vec<TexCoords>,
    ImportError,
>)
    ensures
        match r {
            Ok(v) => source_pairs(sources@, url@) == Ok::<Seq<TexCoords>, ImportError>(v@),
            Err(e) => source_pairs(sources@, url@) == Err::<Seq<TexCoords>, ImportError>(e),
        },
{
    match lookup_source(sources, url) {
        None => Err(ImportError::MalformedDocument),
        Some(t) => match read_pair_chunks(t) {
            Some(v) => Ok(v),
            None => Err(ImportError::MalformedNumber),
        },
    }
}

impl VertexDataView {
    /// No attributes.
    pub open spec fn empty() -> VertexDataView {
        VertexDataView {
            positions: Seq::empty(),
            normals: Seq::empty(),
            tex_coords: Seq::empty(),
            normal_offset: None,
            texcoord_offset: None,
        }
    }

    /// The attributes and the box after an input of the `vertices`
    /// element: a `POSITION` input gives the positions, each of which the
    /// box grows by; a `NORMAL` or `TEXCOORD` input gives the normals or
    /// the texture coordinates, indexed as the positions are.
    pub open spec fn with_vertex_input(
        self,
        aabb: AABB,
        input: InputUnshared,
        sources: Seq<SourceCore>,
    ) -> Result<(VertexDataView, AABB), ImportError> {
        match input.attr_semantic {
            InputSemantic::Position => match source_vec3(sources, input.attr_source@) {
                Ok(v) => Ok((VertexDataView { positions: v, ..self }, aabb.spec_grow_all(v))),
                Err(e) => Err(e),
            },
            InputSemantic::Normal => match source_vec3(sources, input.attr_source@) {
                Ok(v) => Ok((VertexDataView { normals: v, normal_offset: Some(0u32), ..self }, aabb)),
                Err(e) => Err(e),
            },
            InputSemantic::Texcoord => match source_pairs(sources, input.attr_source@) {
                Ok(v) => Ok(
                    (VertexDataView { tex_coords: v, texcoord_offset: Some(0u32), ..self }, aabb),
                ),
                Err(e) => Err(e),
            },
            _ => Ok((self, aabb)),
        }
    }

    /// The attributes and the box after the inputs of the `vertices`
    /// element from input `i` on.
    pub open spec fn with_vertex_inputs(
        self,
        aabb: AABB,
        inputs: Seq<InputUnshared>,
        i: int,
        sources: Seq<SourceCore>,
    ) -> Result<(VertexDataView, AABB), ImportError>
        decreases inputs.len() - i,
    {
        if i < 0 || i >= inputs.len() {
            Ok((self, aabb))
        } else {
            match self.with_vertex_input(aabb, inputs[i], sources) {
                Ok((next, grown)) => next.with_vertex_inputs(grown, inputs, i + 1, sources),
                Err(e) => Err(e),
            }
        }
    }

    /// The attributes after an input of a primitive: a `NORMAL` or
    /// `TEXCOORD` input gives the normals or the texture coordinates and
    /// the place of their index.
    pub open spec fn with_shared_input(self, input: InputShared, sources: Seq<SourceCore>)
        -> Result<VertexDataView, ImportError> {
        match input.attr_semantic {
            InputSemantic::Normal => match source_vec3(sources, input.attr_source@) {
                Ok(v) => Ok(
                    VertexDataView { normals: v, normal_offset: Some(input.attr_offset), ..self },
                ),
                Err(e) => Err(e),
            },
            InputSemantic::Texcoord => match source_pairs(sources, input.attr_source@) {
                Ok(v) => Ok(
                    VertexDataView {
                        tex_coords: v,
                        texcoord_offset: Some(input.attr_offset),
                        ..self
                    },
                ),
                Err(e) => Err(e),
            },
            _ => Ok(self),
        }
    }

    /// The attributes after the inputs of a primitive from input `i` on.
    pub open spec fn with_shared_inputs(
        self,
        inputs: Seq<InputShared>,
        i: int,
        sources: Seq<SourceCore>,
    ) -> Result<VertexDataView, ImportError>
        decreases inputs.len() - i,
    {
        if i < 0 || i >= inputs.len() {
            Ok(self)
        } else {
            match self.with_shared_input(inputs[i], sources) {
                Ok(next) => next.with_shared_inputs(inputs, i + 1, sources),
                Err(e) => Err(e),
            }
        }
    }
}

/// The number of indices of one corner: one more than the largest offset
/// of the inputs, and at least 1.
pub open spec fn stride_of(inputs: Seq<InputShared>) -> int
    decreases inputs.len(),
{
    if inputs.len() == 0 {
        1
    } else if inputs.last().attr_offset + 1 > stride_of(inputs.drop_last()) {
        inputs.last().attr_offset + 1
    } else {
        stride_of(inputs.drop_last())
    }
}

/// The number of indices of one corner.
pub fn stride(inputs: &Vec<InputShared>) -> (r: u64)
    ensures
        r == stride_of(inputs@),
        1 <= r <= 0x1_0000_0000,
{
    let mut r: u64 = 1;
    let mut i: usize = 0;
    assert(inputs@.take(0) =~= Seq::<InputShared>::empty());
    while i < inputs.len()
        invariant
            i <= inputs@.len(),
            r == stride_of(inputs@.take(i as int)),
            1 <= r <= 0x1_0000_0000,
        decreases inputs@.len() - i,
    {
        assert(inputs@.take(i + 1).drop_last() =~= inputs@.take(i as int));
        assert(inputs@.take(i + 1).last() == inputs@[i as int]);
        let o: u64 = inputs[i].attr_offset as u64 + 1;
        if o > r {
            r = o;
        }
        i += 1;
    }
    assert(inputs@.take(i as int) =~= inputs@);
    r
}

/// What the result of reading the `vertices` element holds.
pub open spec fn vertex_result_view(r: Result<(VertexData, AABB), ImportError>) -> Result<
    (VertexDataView, AABB),
    ImportError,
> {
    match r {
        Ok((d, b)) => Ok((d@, b)),
        Err(e) => Err(e),
    }
}

/// What the result of reading attributes holds.
pub open spec fn data_result_view(r: Result<VertexData, ImportError>) -> Result<
    VertexDataView,
    ImportError,
> {
    match r {
        Ok(d) => Ok(d@),
        Err(e) => Err(e),
    }
}

/// Reads the attributes that the `vertices` element of a mesh names, and
/// grows the box by the positions.
pub fn parse_vertices(inputs: &Vec<InputUnshared>, sources: &Vec<SourceCore>, aabb: AABB) -> (r:
    Result<(VertexData, AABB), ImportError>)
    ensures
        vertex_result_view(r) == VertexDataView::empty().with_vertex_inputs(
            aabb,
            inputs@,
            0,
            sources@,
        ),
{
    let mut data = VertexData {
        positions: Vec::new(),
        normals: Vec::new(),
        tex_coords: Vec::new(),
        normal_offset: None,
        texcoord_offset: None,
    };
    let mut grown = aabb;
    let mut i: usize = 0;
    while i < inputs.len()
        invariant
            i <= inputs@.len(),
            VertexDataView::empty().with_vertex_inputs(aabb, inputs@, 0, sources@)
                == data@.with_vertex_inputs(grown, inputs@, i as int, sources@),
        decreases inputs@.len() - i,
    {
        let input = &inputs[i];
        match input.attr_semantic {
            InputSemantic::Position => {
                match read_source_vec3(sources, &input.attr_source) {
                    Ok(v) => {
                        grown.grow_all(&v);
                        data.positions = v;
                    },
                    Err(e) => {
                        return Err(e);
                    },
                }
            },
            InputSemantic::Normal => {
                match read_source_vec3(sources, &input.attr_source) {
                    Ok(v) => {
                        data.normals = v;
                        data.normal_offset = Some(0);
                    },
                    Err(e) => {
                        return Err(e);
                    },
                }
            },
            InputSemantic::Texcoord => {
                match read_source_pairs(sources, &input.attr_source) {
                    Ok(v) => {
                        data.tex_coords = v;
                        data.texcoord_offset = Some(0);
                    },
                    Err(e) => {
                        return Err(e);
                    },
                }
            },
            _ => {},
        }
        i += 1;
    }
    Ok((data, grown))
}

/// The attributes of a primitive: those of the mesh, with what the
/// primitive's own inputs give in their place.
pub fn primitive_data(base: &VertexData, inputs: &Vec<InputShared>, sources: &Vec<SourceCore>)
    -> (r: Result<VertexData, ImportError>)
    ensures
        data_result_view(r) == base@.with_shared_inputs(inputs@, 0, sources@),
{
    let mut data = VertexData {
        positions: vstd::slice::slice_to_vec(base.positions.as_slice()),
        normals: vstd::slice::slice_to_vec(base.normals.as_slice()),
        tex_coords: vstd::slice::slice_to_vec(base.tex_coords.as_slice()),
        normal_offset: base.normal_offset,
        texcoord_offset: base.texcoord_offset,
    };
    let mut i: usize = 0;
    while i < inputs.len()
        invariant
            i <= inputs@.len(),
            base@.with_shared_inputs(inputs@, 0, sources@) == data@.with_shared_inputs(
                inputs@,
                i as int,
                sources@,
            ),
        decreases inputs@.len() - i,
    {
        let input = &inputs[i];
        match input.attr_semantic {
            InputSemantic::Normal => {
                match read_source_vec3(sources, &input.attr_source) {
                    Ok(v) => {
                        data.normals = v;
                        data.normal_offset = Some(input.attr_offset);
                    },
                    Err(e) => {
                        return Err(e);
                    },
                }
            },
            InputSemantic::Texcoord => {
                match read_source_pairs(sources, &input.attr_source) {
                    Ok(v) => {
                        data.tex_coords = v;
                        data.texcoord_offset = Some(input.attr_offset);
                    },
                    Err(e) => {
                        return Err(e);
                    },
                }
            },
            _ => {},
        }
        i += 1;
    }
    Ok(data)
}

/// The place in a list of `len` items that the index `k` points at: `k`
/// itself where it is not negative, `len + k` where it is; none where that
/// lies outside the list.
pub open spec fn resolve_zero_based(k: int, len: int) -> Option<int> {
    if 0 <= k < len {
        Some(k)
    } else if k < 0 && len + k >= 0 {
        Some(len + k)
    } else {
        None
    }
}

/// A negative index points at the same place as the index that counts
/// from the start: `-j` counts `j` items back from the end, so `-1` is the
/// last item.
pub proof fn lemma_negative_index(j: int, len: int)
    requires
        1 <= j <= len,
    ensures
        resolve_zero_based(-j, len) == resolve_zero_based(len - j, len),
        resolve_zero_based(-1, len) == Some(len - 1),
{
}

/// The place that the index at place `at` of an index list points at in
/// a list of `len` items.
pub open spec fn index_at(p: Seq<i64>, at: int, len: int) -> Option<int> {
    if 0 <= at < p.len() {
        resolve_zero_based(p[at] as int, len)
    } else {
        None
    }
}

fn read_index(p: &Vec<i64>, base: usize, offset: u32, len: usize) -> (r: Option<usize>)
    ensures
        match r {
            Some(i) => index_at(p@, base + offset, len as int) == Some(i as int) && i < len,
            None => index_at(p@, base + offset, len as int) is None,
        },
{
    if base >= p.len() {
        return None;
    }
    if offset as u64 >= (p.len() - base) as u64 {
        return None;
    }
    let k: i64 = p[base + offset as usize];
    if k >= 0 {
        if (k as u64) < len as u64 {
            Some(k as usize)
        } else {
            None
        }
    } else {
        let back: u64 = if k == i64::MIN {
            0x8000_0000_0000_0000
        } else {
            (-k) as u64
        };
        if back <= len as u64 {
            Some(len - back as usize)
        } else {
            None
        }
    }
}

impl VertexDataView {
    /// Whether each index of the corner whose indices start at `base`
    /// points into its list.
    pub open spec fn corner_resolves(self, p: Seq<i64>, base: int) -> bool {
        &&& index_at(p, base, self.positions.len() as int) is Some
        &&& self.normal_offset matches Some(o) ==> index_at(p, base + o, self.normals.len() as int)
            is Some
        &&& self.texcoord_offset matches Some(o) ==> index_at(
            p,
            base + o,
            self.tex_coords.len() as int,
        ) is Some
    }

    /// The position of the corner whose indices start at `base`: its
    /// first index is that of the position.
    pub open spec fn corner_position(self, p: Seq<i64>, base: int) -> Vec3 {
        self.positions[index_at(p, base, self.positions.len() as int).unwrap()]
    }

    /// The vertex of the corner whose indices start at `base`: each
    /// attribute is read at the corner's index for it; without normals the
    /// normal is `fallback`, without texture coordinates the coordinate is
    /// `(0, 0)`.
    pub open spec fn corner_vertex(self, p: Seq<i64>, base: int, fallback: Normal) -> Vertex {
        Vertex {
            position: self.corner_position(p, base),
            normal: match self.normal_offset {
                Some(o) => Normal::Given(
                    self.normals[index_at(p, base + o, self.normals.len() as int).unwrap()],
                ),
                None => fallback,
            },
            tex_coords: match self.texcoord_offset {
                Some(o) => self.tex_coords[index_at(
                    p,
                    base + o,
                    self.tex_coords.len() as int,
                ).unwrap()],
                None => TexCoords::spec_zero(),
            },
        }
    }

    /// The normal of a face whose corners name none: that of the triangle
    /// of the face's first three corners where `facet`, else the zero
    /// vector.
    pub open spec fn fallback_normal(self, p: Seq<i64>, start: int, stride: int, facet: bool)
        -> Normal {
        if facet && self.normal_offset is None {
            Normal::Facet(
                self.corner_position(p, start),
                self.corner_position(p, start + stride),
                self.corner_position(p, start + 2 * stride),
            )
        } else {
            Normal::Given(Vec3::spec_zero())
        }
    }
}

/// The vertices and indices put together so far, and the place in the
/// index list where the next face starts.
pub struct Assembly {
    pub vertices: Seq<Vertex>,
    pub indices: Seq<u32>,
    pub next: int,
}

impl Assembly {
    /// Nothing put together, at the start of the index list.
    pub open spec fn start() -> Assembly {
        Assembly { vertices: Seq::empty(), indices: Seq::empty(), next: 0 }
    }

    /// The assembly after a face of `count` corners, each of `stride`
    /// indices: the face gives one vertex for each corner and the triangle
    /// fan over them. A face of fewer than three corners, or one that the
    /// index list does not hold in full, is `IncompleteData`; an index
    /// outside its list is `IndexOutOfRange`.
    pub open spec fn after_face(
        self,
        data: VertexDataView,
        p: Seq<i64>,
        stride: int,
        count: int,
        facet: bool,
    ) -> Result<Assembly, ImportError> {
        if count < 3 || self.next + count * stride > p.len() {
            Err(ImportError::IncompleteData)
        } else if self.vertices.len() + count > u32::MAX {
            Err(ImportError::TooManyVertices)
        } else if !(forall|c: int|
            0 <= c < count ==> data.corner_resolves(p, #[trigger] (self.next + c * stride))) {
            Err(ImportError::IndexOutOfRange)
        } else {
            let fallback = data.fallback_normal(p, self.next, stride, facet);
            Ok(
                Assembly {
                    vertices: self.vertices + Seq::new(
                        count as nat,
                        |c: int| data.corner_vertex(p, self.next + c * stride, fallback),
                    ),
                    indices: self.indices + fan(self.vertices.len() as int, count),
                    next: self.next + count * stride,
                },
            )
        }
    }

    /// The assembly after the faces from face `i` on, `counts` giving the
    /// number of corners of each face.
    pub open spec fn after_faces(
        self,
        data: VertexDataView,
        p: Seq<i64>,
        stride: int,
        counts: Seq<u32>,
        i: int,
        facet: bool,
    ) -> Result<Assembly, ImportError>
        decreases counts.len() - i,
    {
        if i < 0 || i >= counts.len() {
            Ok(self)
        } else {
            match self.after_face(data, p, stride, counts[i] as int, facet) {
                Ok(next) => next.after_faces(data, p, stride, counts, i + 1, facet),
                Err(e) => Err(e),
            }
        }
    }
}

fn read_position(data: &VertexData, p: &Vec<i64>, base: usize) -> (r: Option<Vec3>)
    ensures
        match r {
            Some(v) => index_at(p@, base as int, data@.positions.len() as int) is Some && v
                == data@.corner_position(p@, base as int),
            None => index_at(p@, base as int, data@.positions.len() as int) is None,
        },
{
    match read_index(p, base, 0, data.positions.len()) {
        Some(i) => Some(data.positions[i]),
        None => None,
    }
}

fn read_corner(data: &VertexData, p: &Vec<i64>, base: usize, fallback: Normal) -> (r: Option<
    Vertex,
>)
    ensures
        match r {
            Some(v) => data@.corner_resolves(p@, base as int) && v == data@.corner_vertex(
                p@,
                base as int,
                fallback,
            ),
            None => !data@.corner_resolves(p@, base as int),
        },
{
    let position = match read_position(data, p, base) {
        Some(v) => v,
        None => {
            return None;
        },
    };
    let normal = match data.normal_offset {
        Some(o) => match read_index(p, base, o, data.normals.len()) {
            Some(i) => Normal::Given(data.normals[i]),
            None => {
                return None;
            },
        },
        None => fallback,
    };
    let tex_coords = match data.texcoord_offset {
        Some(o) => match read_index(p, base, o, data.tex_coords.len()) {
            Some(i) => data.tex_coords[i],
            None => {
                return None;
            },
        },
        None => TexCoords::zero(),
    };
    Some(Vertex { position, normal, tex_coords })
}

/// What the result of an assembly holds, `next` being where it stopped.
pub open spec fn assembly_view(r: Result<(Vec<Vertex>, Vec<u32>), ImportError>, next: int)
    -> Result<Assembly, ImportError> {
    match r {
        Ok((vertices, indices)) => Ok(Assembly { vertices: vertices@, indices: indices@, next }),
        Err(e) => Err(e),
    }
}

/// Puts the faces of an index list together: `counts` gives the number
/// of corners of each face, `stride` the number of indices of a corner.
#[verifier::loop_isolation(false)]
pub fn assemble(data: &VertexData, p: &Vec<i64>, stride: u64, counts: &Vec<u32>, facet: bool) -> (r:
    Result<(Vec<Vertex>, Vec<u32>), ImportError>)
    requires
        1 <= stride <= 0x1_0000_0000,
    ensures
        match Assembly::start().after_faces(data@, p@, stride as int, counts@, 0, facet) {
            Ok(built) => r matches Ok((vertices, indices)) && vertices@ == built.vertices && indices@
                == built.indices,
            Err(e) => r == Err::<(Vec<Vertex>, Vec<u32>), ImportError>(e),
        },
{
    let mut vertices: Vec<Vertex> = Vec::new();
    let mut indices: Vec<u32> = Vec::new();
    let mut next: usize = 0;
    let mut i: usize = 0;
    let ghost goal = Assembly::start().after_faces(data@, p@, stride as int, counts@, 0, facet);
    while i < counts.len()
        invariant
            i <= counts@.len(),
            next <= p@.len(),
            goal == (Assembly { vertices: vertices@, indices: indices@, next: next as int })
                .after_faces(data@, p@, stride as int, counts@, i as int, facet),
        decreases counts@.len() - i,
    {
        let ghost built = Assembly { vertices: vertices@, indices: indices@, next: next as int };
        let count: u32 = counts[i];
        if count < 3 {
            return Err(ImportError::IncompleteData);
        }
        assert(count as int * stride as int <= 0xffff_ffff * 0x1_0000_0000) by (nonlinear_arith)
            requires
                0 <= count <= 0xffff_ffff,
                1 <= stride <= 0x1_0000_0000,
        ;
        let need: u64 = count as u64 * stride;
        if need > (p.len() - next) as u64 {
            return Err(ImportError::IncompleteData);
        }
        assert(stride as int <= count as int * stride as int) by (nonlinear_arith)
            requires
                3 <= count,
                1 <= stride,
        ;
        let step: usize = stride as usize;
        if vertices.len() > 0xffff_ffff - count as usize {
            return Err(ImportError::TooManyVertices);
        }
        assert(2 * stride as int <= count as int * stride as int) by (nonlinear_arith)
            requires
                3 <= count,
                1 <= stride,
        ;
        assert(next + 0 * stride as int == next as int);
        assert(next + 1 * stride as int == next + step);
        let fallback = if facet && data.normal_offset.is_none() {
            let a = match read_position(data, p, next) {
                Some(v) => v,
                None => {
                    assert(!data@.corner_resolves(p@, next + 0 * stride as int));
                    return Err(ImportError::IndexOutOfRange);
                },
            };
            let b = match read_position(data, p, next + step) {
                Some(v) => v,
                None => {
                    assert(!data@.corner_resolves(p@, next + 1 * stride as int));
                    return Err(ImportError::IndexOutOfRange);
                },
            };
            let c = match read_position(data, p, next + 2 * step) {
                Some(v) => v,
                None => {
                    assert(!data@.corner_resolves(p@, next + 2 * stride as int));
                    return Err(ImportError::IndexOutOfRange);
                },
            };
            Normal::Facet(a, b, c)
        } else {
            Normal::Given(Vec3::zero())
        };
        assert(fallback == data@.fallback_normal(p@, next as int, stride as int, facet));
        let mut made: Vec<Vertex> = Vec::new();
        let mut c: u32 = 0;
        let mut base: usize = next;
        while c < count
            invariant
                c <= count,
                base == next + c * stride,
                made@.len() == c,
                forall|k: int|
                    0 <= k < c ==> data@.corner_resolves(p@, #[trigger] (next + k * stride)),
                forall|k: int|
                    0 <= k < c ==> made@[k] == data@.corner_vertex(
                        p@,
                        next + k * stride,
                        fallback,
                    ),
            decreases count - c,
        {
            assert((c + 1) * stride == c * stride + stride && (c + 1) * stride <= count * stride)
                by (nonlinear_arith)
                requires
                    0 <= c < count,
                    1 <= stride,
            ;
            match read_corner(data, p, base, fallback) {
                Some(v) => {
                    made.push(v);
                },
                None => {
                    assert(!data@.corner_resolves(p@, next + c * stride));
                    return Err(ImportError::IndexOutOfRange);
                },
            }
            base = base + step;
            c += 1;
        }
        assert(made@ =~= Seq::new(
            count as nat,
            |c: int| data@.corner_vertex(p@, next + c * stride, fallback),
        ));
        let first: u32 = vertices.len() as u32;
        vertices.append(&mut made);
        push_fan(&mut indices, first, count);
        next = next + need as usize;
        i += 1;
    }
    Ok((vertices, indices))
}

/// The sub-mesh of what was put together.
pub open spec fn mesh_of(name: Seq<u8>, built: Assembly) -> ObjMeshView {
    ObjMeshView { name, vertices: built.vertices, indices: built.indices, material: None }
}

/// The corner counts of `n` triangles.
pub open spec fn triangle_counts(n: nat) -> Seq<u32> {
    Seq::new(n, |i: int| 3u32)
}

/// A list of integers as corner counts.
pub open spec fn as_counts(list: Seq<i64>) -> Seq<u32> {
    Seq::new(list.len(), |i: int| list[i] as u32)
}

/// The sub-mesh of a `triangles` element: its index list holds the
/// corners of one triangle after the other, what is left over at the end
/// is passed over, and a corner without a normal gets the zero vector.
pub open spec fn triangles_mesh(
    name: Seq<u8>,
    triangles: Triangles,
    base: VertexDataView,
    sources: Seq<SourceCore>,
) -> Result<ObjMeshView, ImportError> {
    match triangles.p {
        None => Err(ImportError::MalformedDocument),
        Some(text) => match int_list(text@, false) {
            None => Err(ImportError::MalformedNumber),
            Some(p) => match base.with_shared_inputs(triangles.inputs@, 0, sources) {
                Err(e) => Err(e),
                Ok(data) => {
                    let stride = stride_of(triangles.inputs@);
                    let n = p.len() as int / (3 * stride);
                    match Assembly::start().after_faces(
                        data,
                        p,
                        stride,
                        triangle_counts(n as nat),
                        0,
                        false,
                    ) {
                        Ok(built) => Ok(mesh_of(name, built)),
                        Err(e) => Err(e),
                    }
                },
            },
        },
    }
}

/// The sub-mesh of a `polylist` element: `vcount` gives the number of
/// corners of each face, the faces follow one another in the index list,
/// and each is cut into a triangle fan. The element has to count as many
/// faces as `vcount` lists. A corner without a normal gets the normal of
/// the triangle of its face's first three corners.
pub open spec fn polylist_mesh(
    name: Seq<u8>,
    polylist: PolyList,
    base: VertexDataView,
    sources: Seq<SourceCore>,
) -> Result<ObjMeshView, ImportError> {
    match polylist.p {
        None => Err(ImportError::MalformedDocument),
        Some(text) => match int_list(text@, true) {
            None => Err(ImportError::MalformedNumber),
            Some(p) => match polylist.vcount {
                None => Err(ImportError::MalformedDocument),
                Some(counts_text) => match int_list(counts_text@, false) {
                    None => Err(ImportError::MalformedNumber),
                    Some(counts) => match base.with_shared_inputs(polylist.inputs@, 0, sources) {
                        Err(e) => Err(e),
                        Ok(data) => if polylist.attr_count != counts.len() {
                            Err(ImportError::MalformedDocument)
                        } else {
                            match Assembly::start().after_faces(
                                data,
                                p,
                                stride_of(polylist.inputs@),
                                as_counts(counts),
                                0,
                                true,
                            ) {
                                Ok(built) => Ok(mesh_of(name, built)),
                                Err(e) => Err(e),
                            }
                        },
                    },
                },
            },
        },
    }
}

/// What the result of reading a primitive holds.
pub open spec fn mesh_result_view(r: Result<ObjMesh, ImportError>) -> Result<
    ObjMeshView,
    ImportError,
> {
    match r {
        Ok(m) => Ok(m@),
        Err(e) => Err(e),
    }
}

/// Reads a `triangles` element into a sub-mesh of the given name.
pub fn parse_triangles(
    node_name: Vec<u8>,
    triangles: &Triangles,
    base: &VertexData,
    sources: &Vec<SourceCore>,
) -> (r: Result<ObjMesh, ImportError>)
    ensures
        mesh_result_view(r) == triangles_mesh(node_name@, *triangles, base@, sources@),
{
    let text = match &triangles.p {
        None => {
            return Err(ImportError::MalformedDocument);
        },
        Some(t) => t,
    };
    let p = match parse_int_list(text.as_slice(), false) {
        None => {
            return Err(ImportError::MalformedNumber);
        },
        Some(p) => p,
    };
    let data = match primitive_data(base, &triangles.inputs, sources) {
        Err(e) => {
            return Err(e);
        },
        Ok(d) => d,
    };
    let step: u64 = stride(&triangles.inputs);
    let n: u64 = p.len() as u64 / (3 * step);
    let mut counts: Vec<u32> = Vec::new();
    let mut i: u64 = 0;
    while i < n
        invariant
            i <= n,
            counts@ == triangle_counts(i as nat),
        decreases n - i,
    {
        counts.push(3);
        assert(counts@ =~= triangle_counts((i + 1) as nat));
        i += 1;
    }
    match assemble(&data, &p, step, &counts, false) {
        Ok((vertices, indices)) => Ok(ObjMesh { name: node_name, vertices, indices, material: None }),
        Err(e) => Err(e),
    }
}

/// Reads a `polylist` element into a sub-mesh of the given name.
pub fn parse_polylist(
    node_name: Vec<u8>,
    polylist: &PolyList,
    base: &VertexData,
    sources: &Vec<SourceCore>,
) -> (r: Result<ObjMesh, ImportError>)
    ensures
        mesh_result_view(r) == polylist_mesh(node_name@, *polylist, base@, sources@),
{
    let text = match &polylist.p {
        None => {
            return Err(ImportError::MalformedDocument);
        },
        Some(t) => t,
    };
    let p = match parse_int_list(text.as_slice(), true) {
        None => {
            return Err(ImportError::MalformedNumber);
        },
        Some(p) => p,
    };
    let counts_text = match &polylist.vcount {
        None => {
            return Err(ImportError::MalformedDocument);
        },
        Some(t) => t,
    };
    let list = match parse_int_list(counts_text.as_slice(), false) {
        None => {
            return Err(ImportError::MalformedNumber);
        },
        Some(l) => l,
    };
    let data = match primitive_data(base, &polylist.inputs, sources) {
        Err(e) => {
            return Err(e);
        },
        Ok(d) => d,
    };
    if polylist.attr_count as u64 != list.len() as u64 {
        return Err(ImportError::MalformedDocument);
    }
    let mut counts: Vec<u32> = Vec::new();
    let mut i: usize = 0;
    let ghost words = words_of(counts_text@);
    while i < list.len()
        invariant
            i <= list@.len(),
            words == words_of(counts_text@),
            int_list(counts_text@, false) == Some(list@),
            counts@ == as_counts(list@).take(i as int),
        decreases list@.len() - i,
    {
        let v: i64 = list[i];
        assert(list@[i as int] == int_word(words[i as int], false).unwrap());
        assert(0 <= v <= u32::MAX);
        counts.push(v as u32);
        i += 1;
        assert(counts@ =~= as_counts(list@).take(i as int));
    }
    assert(as_counts(list@).take(i as int) =~= as_counts(list@));
    let step: u64 = stride(&polylist.inputs);
    match assemble(&data, &p, step, &counts, true) {
        Ok((vertices, indices)) => Ok(ObjMesh { name: node_name, vertices, indices, material: None }),
        Err(e) => Err(e),
    }
}

/// Whether an identifier is the one that a reference names: the
/// reference without its first byte.
pub open spec fn names(url: Seq<u8>, id: Option<Vec<u8>>) -> bool {
    match id {
        Some(id) => url.len() > 0 && id@ == url.skip(1),
        None => false,
    }
}

/// The last geometry of a list that a reference names.
pub open spec fn last_geometry(geometries: Seq<Geometry>, url: Seq<u8>) -> Option<Geometry>
    decreases geometries.len(),
{
    if geometries.len() == 0 {
        None
    } else if names(url, geometries.last().attr_id) {
        Some(geometries.last())
    } else {
        last_geometry(geometries.drop_last(), url)
    }
}

/// The geometry that a reference names: the last one in the document
/// with the identifier.
pub open spec fn find_geometry(libraries: Seq<Library>, url: Seq<u8>) -> Option<Geometry>
    decreases libraries.len(),
{
    if libraries.len() == 0 {
        None
    } else {
        match libraries.last() {
            Library::Geometries(g) => match last_geometry(g@, url) {
                Some(found) => Some(found),
                None => find_geometry(libraries.drop_last(), url),
            },
            _ => find_geometry(libraries.drop_last(), url),
        }
    }
}

/// The last scene of a list that a reference names.
pub open spec fn last_scene(scenes: Seq<VisualScene>, url: Seq<u8>) -> Option<VisualScene>
    decreases scenes.len(),
{
    if scenes.len() == 0 {
        None
    } else if names(url, scenes.last().attr_id) {
        Some(scenes.last())
    } else {
        last_scene(scenes.drop_last(), url)
    }
}

/// The scene that a reference names: the last one in the document with
/// the identifier.
pub open spec fn find_scene(libraries: Seq<Library>, url: Seq<u8>) -> Option<VisualScene>
    decreases libraries.len(),
{
    if libraries.len() == 0 {
        None
    } else {
        match libraries.last() {
            Library::VisualScenes(v) => match last_scene(v@, url) {
                Some(found) => Some(found),
                None => find_scene(libraries.drop_last(), url),
            },
            _ => find_scene(libraries.drop_last(), url),
        }
    }
}

/// Whether every scene, geometry and material of a library has an
/// identifier.
pub open spec fn has_ids(library: Library) -> bool {
    match library {
        Library::VisualScenes(v) => forall|i: int|
            0 <= i < v@.len() ==> (#[trigger] v@[i]).attr_id is Some,
        Library::Geometries(g) => forall|i: int|
            0 <= i < g@.len() ==> (#[trigger] g@[i]).attr_id is Some,
        Library::Materials(m) => forall|i: int|
            0 <= i < m@.len() ==> (#[trigger] m@[i]).attr_id is Some,
        _ => true,
    }
}

fn name_matches(url: &Vec<u8>, id: &Option<Vec<u8>>) -> (r: bool)
    ensures
        r == names(url@, *id),
{
    if url.len() == 0 {
        return false;
    }
    match id {
        None => false,
        Some(id) => {
            let wanted = crate::text::copy_range(url.as_slice(), 1, url.len());
            bytes_eq(id.as_slice(), wanted.as_slice())
        },
    }
}

#[verifier::loop_isolation(false)]
fn lookup_geometry<'a>(libraries: &'a Vec<Library>, url: &Vec<u8>) -> (r: Option<&'a Geometry>)
    ensures
        match r {
            Some(g) => find_geometry(libraries@, url@) == Some(*g),
            None => find_geometry(libraries@, url@) is None,
        },
{
    let mut i: usize = libraries.len();
    assert(libraries@.take(i as int) =~= libraries@);
    while i > 0
        invariant
            i <= libraries@.len(),
            find_geometry(libraries@, url@) == find_geometry(libraries@.take(i as int), url@),
        decreases i,
    {
        i -= 1;
        assert(libraries@.take(i + 1).last() == libraries@[i as int]);
        assert(libraries@.take(i + 1).drop_last() =~= libraries@.take(i as int));
        match &libraries[i] {
            Library::Geometries(g) => {
                let mut j: usize = g.len();
                assert(g@.take(j as int) =~= g@);
                while j > 0
                    invariant
                        j <= g@.len(),
                        last_geometry(g@, url@) == last_geometry(g@.take(j as int), url@),
                    decreases j,
                {
                    j -= 1;
                    assert(g@.take(j + 1).last() == g@[j as int]);
                    assert(g@.take(j + 1).drop_last() =~= g@.take(j as int));
                    if name_matches(url, &g[j].attr_id) {
                        return Some(&g[j]);
                    }
                }
            },
            _ => {},
        }
    }
    None
}

#[verifier::loop_isolation(false)]
fn lookup_scene<'a>(libraries: &'a Vec<Library>, url: &Vec<u8>) -> (r: Option<&'a VisualScene>)
    ensures
        match r {
            Some(v) => find_scene(libraries@, url@) == Some(*v),
            None => find_scene(libraries@, url@) is None,
        },
{
    let mut i: usize = libraries.len();
    assert(libraries@.take(i as int) =~= libraries@);
    while i > 0
        invariant
            i <= libraries@.len(),
            find_scene(libraries@, url@) == find_scene(libraries@.take(i as int), url@),
        decreases i,
    {
        i -= 1;
        assert(libraries@.take(i + 1).last() == libraries@[i as int]);
        assert(libraries@.take(i + 1).drop_last() =~= libraries@.take(i as int));
        match &libraries[i] {
            Library::VisualScenes(v) => {
                let mut j: usize = v.len();
                assert(v@.take(j as int) =~= v@);
                while j > 0
                    invariant
                        j <= v@.len(),
                        last_scene(v@, url@) == last_scene(v@.take(j as int), url@),
                    decreases j,
                {
                    j -= 1;
                    assert(v@.take(j + 1).last() == v@[j as int]);
                    assert(v@.take(j + 1).drop_last() =~= v@.take(j as int));
                    if name_matches(url, &v[j].attr_id) {
                        return Some(&v[j]);
                    }
                }
            },
            _ => {},
        }
    }
    None
}

#[verifier::loop_isolation(false)]
fn check_ids(library: &Library) -> (r: bool)
    ensures
        r == has_ids(*library),
{
    match library {
        Library::VisualScenes(v) => {
            let mut i: usize = 0;
            while i < v.len()
                invariant
                    i <= v@.len(),
                    forall|k: int| 0 <= k < i ==> (#[trigger] v@[k]).attr_id is Some,
                decreases v@.len() - i,
            {
                if v[i].attr_id.is_none() {
                    assert(v@[i as int].attr_id is None);
                    return false;
                }
                i += 1;
            }
            true
        },
        Library::Geometries(g) => {
            let mut i: usize = 0;
            while i < g.len()
                invariant
                    i <= g@.len(),
                    forall|k: int| 0 <= k < i ==> (#[trigger] g@[k]).attr_id is Some,
                decreases g@.len() - i,
            {
                if g[i].attr_id.is_none() {
                    assert(g@[i as int].attr_id is None);
                    return false;
                }
                i += 1;
            }
            true
        },
        Library::Materials(m) => {
            let mut i: usize = 0;
            while i < m.len()
                invariant
                    i <= m@.len(),
                    forall|k: int| 0 <= k < i ==> (#[trigger] m@[k]).attr_id is Some,
                decreases m@.len() - i,
            {
                if m[i].attr_id.is_none() {
                    assert(m@[i as int].attr_id is None);
                    return false;
                }
                i += 1;
            }
            true
        },
        _ => true,
    }
}

/// The sub-meshes read so far and the box around the positions read so
/// far.
pub struct Resolved {
    pub meshes: Seq<ObjMeshView>,
    pub aabb: AABB,
}

impl Resolved {
    /// Nothing read.
    pub open spec fn start() -> Resolved {
        Resolved { meshes: Seq::empty(), aabb: AABB::spec_empty() }
    }

    /// What is read after a primitive of a mesh: a `triangles` or
    /// `polylist` element with an index list gives a sub-mesh, any other
    /// primitive nothing.
    pub open spec fn after_primitive(
        self,
        name: Seq<u8>,
        primitive: Primitive,
        data: VertexDataView,
        sources: Seq<SourceCore>,
    ) -> Result<Resolved, ImportError> {
        match primitive {
            Primitive::Triangles(t) => if t.p is Some {
                match triangles_mesh(name, t, data, sources) {
                    Ok(m) => Ok(Resolved { meshes: self.meshes.push(m), ..self }),
                    Err(e) => Err(e),
                }
            } else {
                Ok(self)
            },
            Primitive::PolyList(l) => if l.p is Some {
                match polylist_mesh(name, l, data, sources) {
                    Ok(m) => Ok(Resolved { meshes: self.meshes.push(m), ..self }),
                    Err(e) => Err(e),
                }
            } else {
                Ok(self)
            },
            _ => Ok(self),
        }
    }

    /// What is read after the primitives of a mesh from primitive `i` on.
    pub open spec fn after_primitives(
        self,
        name: Seq<u8>,
        primitives: Seq<Primitive>,
        i: int,
        data: VertexDataView,
        sources: Seq<SourceCore>,
    ) -> Result<Resolved, ImportError>
        decreases primitives.len() - i,
    {
        if i < 0 || i >= primitives.len() {
            Ok(self)
        } else {
            match self.after_primitive(name, primitives[i], data, sources) {
                Ok(next) => next.after_primitives(name, primitives, i + 1, data, sources),
                Err(e) => Err(e),
            }
        }
    }

    /// What is read after an instance of a geometry in a node of the
    /// given name: the geometry has to be in the document; if it is a
    /// mesh, the box grows by its positions and each primitive gives a
    /// sub-mesh.
    pub open spec fn after_instance(self, name: Seq<u8>, url: Seq<u8>, libraries: Seq<Library>)
        -> Result<Resolved, ImportError> {
        match find_geometry(libraries, url) {
            None => Err(ImportError::MalformedDocument),
            Some(g) => match g.geometric_element {
                GeometricElement::Mesh(m) => match VertexDataView::empty().with_vertex_inputs(
                    self.aabb,
                    m.vertices.inputs@,
                    0,
                    m.sources@,
                ) {
                    Err(e) => Err(e),
                    Ok((data, aabb)) => (Resolved { aabb, ..self }).after_primitives(
                        name,
                        m.primitives@,
                        0,
                        data,
                        m.sources@,
                    ),
                },
                _ => Ok(self),
            },
        }
    }

    /// What is read after the instances of a node from instance `i` on.
    pub open spec fn after_instances(
        self,
        name: Seq<u8>,
        instances: Seq<InstanceGeometry>,
        i: int,
        libraries: Seq<Library>,
    ) -> Result<Resolved, ImportError>
        decreases instances.len() - i,
    {
        if i < 0 || i >= instances.len() {
            Ok(self)
        } else {
            match self.after_instance(name, instances[i].attr_url@, libraries) {
                Ok(next) => next.after_instances(name, instances, i + 1, libraries),
                Err(e) => Err(e),
            }
        }
    }

    /// What is read after the nodes of a scene from node `i` on. A node
    /// that is no `NODE` is passed over; the sub-meshes of a node have the
    /// node's name, or `default_mesh` where it has none.
    pub open spec fn after_nodes(self, nodes: Seq<Node>, i: int, libraries: Seq<Library>) -> Result<
        Resolved,
        ImportError,
    >
        decreases nodes.len() - i,
    {
        if i < 0 || i >= nodes.len() {
            Ok(self)
        } else if nodes[i].attr_type != NodeType::Node {
            self.after_nodes(nodes, i + 1, libraries)
        } else {
            match self.after_instances(
                node_name(nodes[i]),
                nodes[i].instance_geometry@,
                0,
                libraries,
            ) {
                Ok(next) => next.after_nodes(nodes, i + 1, libraries),
                Err(e) => Err(e),
            }
        }
    }
}

/// The name of the sub-meshes of a node.
pub open spec fn node_name(node: Node) -> Seq<u8> {
    match node.attr_name {
        Some(n) => n@,
        None => "default_mesh".spec_bytes(),
    }
}

/// Whether a scene has a node that is a `NODE`.
pub open spec fn has_plain_node(nodes: Seq<Node>) -> bool {
    exists|i: int| 0 <= i < nodes.len() && (#[trigger] nodes[i]).attr_type == NodeType::Node
}

/// Whether a scene has a node with an instance of a geometry.
pub open spec fn has_instance(nodes: Seq<Node>) -> bool {
    exists|i: int| 0 <= i < nodes.len() && (#[trigger] nodes[i]).instance_geometry@.len() > 0
}

/// The object of a document.
///
/// Every scene, geometry and material has to have an identifier. A
/// document without a `scene` element gives an object without sub-meshes.
/// Else the element has to name a scene that the document holds, and the
/// scene has to have a node that is a `NODE` and a node with an instance
/// of a geometry; each failing is `MalformedDocument`. The nodes of the
/// scene are read in order into an object named `default_obj`.
pub open spec fn resolved(doc: ColladaDocument) -> Result<ObjectView, ImportError> {
    let libraries = doc.libraries@;
    if !(forall|i: int| 0 <= i < libraries.len() ==> has_ids(#[trigger] libraries[i])) {
        Err(ImportError::MalformedDocument)
    } else {
        match doc.scene {
            None => Ok(object_of(Resolved::start())),
            Some(s) => match s.instance_visual_scene {
                None => Err(ImportError::MalformedDocument),
                Some(instance) => match find_scene(libraries, instance.attr_url@) {
                    None => Err(ImportError::MalformedDocument),
                    Some(scene) => if !has_plain_node(scene.nodes@) || !has_instance(
                        scene.nodes@,
                    ) {
                        Err(ImportError::MalformedDocument)
                    } else {
                        match Resolved::start().after_nodes(scene.nodes@, 0, libraries) {
                            Ok(r) => Ok(object_of(r)),
                            Err(e) => Err(e),
                        }
                    },
                },
            },
        }
    }
}

/// The object of what was read.
pub open spec fn object_of(r: Resolved) -> ObjectView {
    ObjectView { name: "default_obj".spec_bytes(), meshes: r.meshes, aabb: r.aabb }
}

fn any_plain_node(nodes: &Vec<Node>) -> (r: bool)
    ensures
        r == has_plain_node(nodes@),
{
    let mut i: usize = 0;
    while i < nodes.len()
        invariant
            i <= nodes@.len(),
            forall|k: int| 0 <= k < i ==> (#[trigger] nodes@[k]).attr_type != NodeType::Node,
        decreases nodes@.len() - i,
    {
        if nodes[i].attr_type == NodeType::Node {
            return true;
        }
        i += 1;
    }
    false
}

fn any_instance(nodes: &Vec<Node>) -> (r: bool)
    ensures
        r == has_instance(nodes@),
{
    let mut i: usize = 0;
    while i < nodes.len()
        invariant
            i <= nodes@.len(),
            forall|k: int| 0 <= k < i ==> (#[trigger] nodes@[k]).instance_geometry@.len() == 0,
        decreases nodes@.len() - i,
    {
        if nodes[i].instance_geometry.len() > 0 {
            return true;
        }
        i += 1;
    }
    false
}

/// Reads the geometry that a node instantiates.
#[verifier::loop_isolation(false)]
fn read_instance(
    meshes: &mut Vec<ObjMesh>,
    aabb: &mut AABB,
    name: &Vec<u8>,
    url: &Vec<u8>,
    libraries: &Vec<Library>,
) -> (r: Result<(), ImportError>)
    ensures
        match (Resolved { meshes: mesh_views(old(meshes)@), aabb: *old(aabb) }).after_instance(
            name@,
            url@,
            libraries@,
        ) {
            Ok(next) => r is Ok && mesh_views(final(meshes)@) == next.meshes && *final(aabb)
                == next.aabb,
            Err(e) => r == Err::<(), ImportError>(e),
        },
{
    let ghost before = Resolved { meshes: mesh_views(meshes@), aabb: *aabb };
    let geometry = match lookup_geometry(libraries, url) {
        None => {
            return Err(ImportError::MalformedDocument);
        },
        Some(g) => g,
    };
    let mesh = match &geometry.geometric_element {
        GeometricElement::Mesh(m) => m,
        _ => {
            return Ok(());
        },
    };
    let data = match parse_vertices(&mesh.vertices.inputs, &mesh.sources, *aabb) {
        Err(e) => {
            return Err(e);
        },
        Ok((data, grown)) => {
            *aabb = grown;
            data
        },
    };
    let ghost after_vertices = Resolved { meshes: mesh_views(meshes@), aabb: *aabb };
    let ghost goal = after_vertices.after_primitives(
        name@,
        mesh.primitives@,
        0,
        data@,
        mesh.sources@,
    );
    assert(before.after_instance(name@, url@, libraries@) == goal);
    let mut i: usize = 0;
    while i < mesh.primitives.len()
        invariant
            i <= mesh.primitives@.len(),
            goal == (Resolved { meshes: mesh_views(meshes@), aabb: *aabb }).after_primitives(
                name@,
                mesh.primitives@,
                i as int,
                data@,
                mesh.sources@,
            ),
        decreases mesh.primitives@.len() - i,
    {
        let ghost done = mesh_views(meshes@);
        match &mesh.primitives[i] {
            Primitive::Triangles(t) => {
                if t.p.is_some() {
                    match parse_triangles(copy_bytes(name), t, &data, &mesh.sources) {
                        Ok(m) => {
                            meshes.push(m);
                            assert(mesh_views(meshes@) =~= done.push(m@));
                        },
                        Err(e) => {
                            return Err(e);
                        },
                    }
                }
            },
            Primitive::PolyList(l) => {
                if l.p.is_some() {
                    match parse_polylist(copy_bytes(name), l, &data, &mesh.sources) {
                        Ok(m) => {
                            meshes.push(m);
                            assert(mesh_views(meshes@) =~= done.push(m@));
                        },
                        Err(e) => {
                            return Err(e);
                        },
                    }
                }
            },
            _ => {},
        }
        i += 1;
    }
    Ok(())
}

/// What the result of an import holds.
pub open spec fn object_result_view(r: Result<Object, ImportError>) -> Result<
    ObjectView,
    ImportError,
> {
    match r {
        Ok(o) => Ok(o@),
        Err(e) => Err(e),
    }
}

/// Reads the geometry of a document into an object.
#[verifier::loop_isolation(false)]
pub fn parse_dae(doc: &ColladaDocument) -> (r: Result<Object, ImportError>)
    ensures
        object_result_view(r) == resolved(*doc),
        r matches Ok(o) ==> o@.is_indexed() && o@.bounds_vertices(),
{
    proof {
        lemma_resolved_sound(*doc);
    }
    let libraries = &doc.libraries;
    let mut l: usize = 0;
    while l < libraries.len()
        invariant
            l <= libraries@.len(),
            forall|k: int| 0 <= k < l ==> has_ids(#[trigger] libraries@[k]),
        decreases libraries@.len() - l,
    {
        if !check_ids(&libraries[l]) {
            return Err(ImportError::MalformedDocument);
        }
        l += 1;
    }
    let mut meshes: Vec<ObjMesh> = Vec::new();
    let mut aabb = AABB::empty();
    assert(mesh_views(meshes@) =~= Seq::empty());
    match &doc.scene {
        None => {},
        Some(s) => {
            let instance = match &s.instance_visual_scene {
                None => {
                    return Err(ImportError::MalformedDocument);
                },
                Some(i) => i,
            };
            let scene = match lookup_scene(libraries, &instance.attr_url) {
                None => {
                    return Err(ImportError::MalformedDocument);
                },
                Some(v) => v,
            };
            if !any_plain_node(&scene.nodes) || !any_instance(&scene.nodes) {
                return Err(ImportError::MalformedDocument);
            }
            let ghost goal = Resolved::start().after_nodes(scene.nodes@, 0, libraries@);
            let mut n: usize = 0;
            while n < scene.nodes.len()
                invariant
                    n <= scene.nodes@.len(),
                    goal == (Resolved { meshes: mesh_views(meshes@), aabb }).after_nodes(
                        scene.nodes@,
                        n as int,
                        libraries@,
                    ),
                decreases scene.nodes@.len() - n,
            {
                let node = &scene.nodes[n];
                if node.attr_type == NodeType::Node {
                    let name = match &node.attr_name {
                        Some(x) => copy_bytes(x),
                        None => word_bytes("default_mesh"),
                    };
                    let ghost node_goal = (Resolved {
                        meshes: mesh_views(meshes@),
                        aabb,
                    }).after_instances(name@, node.instance_geometry@, 0, libraries@);
                    let mut g: usize = 0;
                    while g < node.instance_geometry.len()
                        invariant
                            g <= node.instance_geometry@.len(),
                            name@ == node_name(*node),
                            node_goal == (Resolved {
                                meshes: mesh_views(meshes@),
                                aabb,
                            }).after_instances(
                                name@,
                                node.instance_geometry@,
                                g as int,
                                libraries@,
                            ),
                        decreases node.instance_geometry@.len() - g,
                    {
                        match read_instance(
                            &mut meshes,
                            &mut aabb,
                            &name,
                            &node.instance_geometry[g].attr_url,
                            libraries,
                        ) {
                            Ok(()) => {},
                            Err(e) => {
                                return Err(e);
                            },
                        }
                        g += 1;
                    }
                }
                n += 1;
            }
        },
    }
    Ok(Object { name: word_bytes("default_obj"), meshes, aabb })
}

/// Reads the geometry of a document into an object.
pub fn load_dae(doc: &ColladaDocument) -> (r: Result<Object, ImportError>)
    ensures
        object_result_view(r) == resolved(*doc),
        r matches Ok(o) ==> o@.is_indexed() && o@.bounds_vertices(),
{
    parse_dae(doc)
}

/// Whether each point of `a` is one of `points`.
pub open spec fn within(a: Seq<Vec3>, points: Seq<Vec3>) -> bool {
    forall|k: int| 0 <= k < a.len() ==> points.contains(#[trigger] a[k])
}

proof fn lemma_within_extended(a: Seq<Vec3>, points: Seq<Vec3>, added: Seq<Vec3>)
    requires
        within(a, points),
    ensures
        within(a, points + added),
{
    assert forall|k: int| 0 <= k < a.len() implies (points + added).contains(#[trigger] a[k]) by {
        assert(points.contains(a[k]));
        let w = choose|w: int| 0 <= w < points.len() && points[w] == a[k];
        assert((points + added)[w] == a[k]);
    }
}

proof fn lemma_within_added(points: Seq<Vec3>, added: Seq<Vec3>)
    ensures
        within(added, points + added),
{
    assert forall|k: int| 0 <= k < added.len() implies (points + added).contains(
        #[trigger] added[k],
    ) by {
        assert((points + added)[points.len() + k] == added[k]);
    }
}

proof fn lemma_drawn_from_within(vertices: Seq<Vertex>, a: Seq<Vec3>, points: Seq<Vec3>)
    requires
        drawn_from(vertices, a),
        within(a, points),
    ensures
        drawn_from(vertices, points),
{
    assert forall|i: int| 0 <= i < vertices.len() implies points.contains(
        (#[trigger] vertices[i]).position,
    ) by {
        assert(a.contains(vertices[i].position));
        let w = choose|w: int| 0 <= w < a.len() && a[w] == vertices[i].position;
        assert(points.contains(a[w]));
    }
}

proof fn lemma_drawn_from_extended(vertices: Seq<Vertex>, points: Seq<Vec3>, added: Seq<Vec3>)
    requires
        drawn_from(vertices, points),
    ensures
        drawn_from(vertices, points + added),
{
    assert forall|i: int| 0 <= i < vertices.len() implies (points + added).contains(
        (#[trigger] vertices[i]).position,
    ) by {
        assert(points.contains(vertices[i].position));
        let w = choose|w: int| 0 <= w < points.len() && points[w] == vertices[i].position;
        assert((points + added)[w] == vertices[i].position);
    }
}

impl Assembly {
    /// What is put together is made of triangles over its own vertices,
    /// and each vertex lies at one of the positions.
    pub open spec fn is_sound(self, positions: Seq<Vec3>) -> bool {
        &&& is_triangle_list(self.indices, self.vertices.len())
        &&& drawn_from(self.vertices, positions)
    }
}

proof fn lemma_after_face_sound(
    built: Assembly,
    data: VertexDataView,
    p: Seq<i64>,
    stride: int,
    count: int,
    facet: bool,
)
    requires
        built.is_sound(data.positions),
    ensures
        built.after_face(data, p, stride, count, facet) matches Ok(next) ==> next.is_sound(
            data.positions,
        ),
{
    match built.after_face(data, p, stride, count, facet) {
        Ok(next) => {
            let first = built.vertices.len() as int;
            lemma_fan_in_range(first, count);
            assert forall|i: int| 0 <= i < next.indices.len() implies (#[trigger] next.indices[i])
                < next.vertices.len() by {
                if i >= built.indices.len() {
                    assert(next.indices[i] == fan(first, count)[i - built.indices.len()]);
                }
            }
            assert forall|i: int| 0 <= i < next.vertices.len() implies data.positions.contains(
                (#[trigger] next.vertices[i]).position,
            ) by {
                if i >= first {
                    let c = i - first;
                    let base = built.next + c * stride;
                    assert(data.corner_resolves(p, base));
                    let k = index_at(p, base, data.positions.len() as int).unwrap();
                    assert(data.positions[k] == next.vertices[i].position);
                } else {
                    assert(next.vertices[i] == built.vertices[i]);
                }
            }
        },
        Err(_) => {},
    }
}

proof fn lemma_after_faces_sound(
    built: Assembly,
    data: VertexDataView,
    p: Seq<i64>,
    stride: int,
    counts: Seq<u32>,
    i: int,
    facet: bool,
)
    requires
        built.is_sound(data.positions),
    ensures
        built.after_faces(data, p, stride, counts, i, facet) matches Ok(next) ==> next.is_sound(
            data.positions,
        ),
    decreases counts.len() - i,
{
    if 0 <= i < counts.len() {
        lemma_after_face_sound(built, data, p, stride, counts[i] as int, facet);
        match built.after_face(data, p, stride, counts[i] as int, facet) {
            Ok(next) => {
                lemma_after_faces_sound(next, data, p, stride, counts, i + 1, facet);
            },
            Err(_) => {},
        }
    }
}

proof fn lemma_shared_inputs_keep_positions(
    data: VertexDataView,
    inputs: Seq<InputShared>,
    i: int,
    sources: Seq<SourceCore>,
)
    ensures
        data.with_shared_inputs(inputs, i, sources) matches Ok(d) ==> d.positions
            == data.positions,
    decreases inputs.len() - i,
{
    if 0 <= i < inputs.len() {
        match data.with_shared_input(inputs[i], sources) {
            Ok(next) => {
                lemma_shared_inputs_keep_positions(next, inputs, i + 1, sources);
            },
            Err(_) => {},
        }
    }
}

/// The sub-mesh of a `triangles` element is made of triangles over its
/// own vertices, and each vertex lies at a position of the mesh.
pub proof fn lemma_triangles_mesh_sound(
    name: Seq<u8>,
    triangles: Triangles,
    base: VertexDataView,
    sources: Seq<SourceCore>,
)
    ensures
        triangles_mesh(name, triangles, base, sources) matches Ok(m) ==> m.is_indexed()
            && drawn_from(m.vertices, base.positions),
{
    match triangles_mesh(name, triangles, base, sources) {
        Ok(m) => {
            let p = int_list(triangles.p.unwrap()@, false).unwrap();
            let data = base.with_shared_inputs(triangles.inputs@, 0, sources).unwrap();
            lemma_shared_inputs_keep_positions(base, triangles.inputs@, 0, sources);
            let stride = stride_of(triangles.inputs@);
            let n = p.len() as int / (3 * stride);
            lemma_after_faces_sound(
                Assembly::start(),
                data,
                p,
                stride,
                triangle_counts(n as nat),
                0,
                false,
            );
        },
        Err(_) => {},
    }
}

/// The sub-mesh of a `polylist` element is made of triangles over its own
/// vertices, and each vertex lies at a position of the mesh.
pub proof fn lemma_polylist_mesh_sound(
    name: Seq<u8>,
    polylist: PolyList,
    base: VertexDataView,
    sources: Seq<SourceCore>,
)
    ensures
        polylist_mesh(name, polylist, base, sources) matches Ok(m) ==> m.is_indexed()
            && drawn_from(m.vertices, base.positions),
{
    match polylist_mesh(name, polylist, base, sources) {
        Ok(m) => {
            let p = int_list(polylist.p.unwrap()@, true).unwrap();
            let counts = int_list(polylist.vcount.unwrap()@, false).unwrap();
            let data = base.with_shared_inputs(polylist.inputs@, 0, sources).unwrap();
            lemma_shared_inputs_keep_positions(base, polylist.inputs@, 0, sources);
            lemma_after_faces_sound(
                Assembly::start(),
                data,
                p,
                stride_of(polylist.inputs@),
                as_counts(counts),
                0,
                true,
            );
        },
        Err(_) => {},
    }
}

impl Resolved {
    /// The box is the box of `points`, and each sub-mesh is made of
    /// triangles over its own vertices, each of which lies at one of the
    /// points.
    pub open spec fn is_sound(self, points: Seq<Vec3>) -> bool {
        &&& self.aabb == AABB::of_points(points)
        &&& forall|i: int|
            0 <= i < self.meshes.len() ==> {
                &&& (#[trigger] self.meshes[i]).is_indexed()
                &&& drawn_from(self.meshes[i].vertices, points)
            }
    }
}

proof fn lemma_push_sound(r: Resolved, points: Seq<Vec3>, m: ObjMeshView)
    requires
        r.is_sound(points),
        m.is_indexed(),
        drawn_from(m.vertices, points),
    ensures
        (Resolved { meshes: r.meshes.push(m), ..r }).is_sound(points),
{
    let t = Resolved { meshes: r.meshes.push(m), ..r };
    assert forall|i: int| 0 <= i < t.meshes.len() implies {
        &&& (#[trigger] t.meshes[i]).is_indexed()
        &&& drawn_from(t.meshes[i].vertices, points)
    } by {
        if i < r.meshes.len() {
            assert(t.meshes[i] == r.meshes[i]);
        }
    }
}

proof fn lemma_primitives_sound(
    r: Resolved,
    points: Seq<Vec3>,
    name: Seq<u8>,
    primitives: Seq<Primitive>,
    i: int,
    data: VertexDataView,
    sources: Seq<SourceCore>,
)
    requires
        r.is_sound(points),
        within(data.positions, points),
    ensures
        r.after_primitives(name, primitives, i, data, sources) matches Ok(next) ==> next.is_sound(
            points,
        ),
    decreases primitives.len() - i,
{
    if 0 <= i < primitives.len() {
        match r.after_primitive(name, primitives[i], data, sources) {
            Ok(next) => {
                match primitives[i] {
                    Primitive::Triangles(t) => {
                        if t.p is Some {
                            lemma_triangles_mesh_sound(name, t, data, sources);
                            let m = triangles_mesh(name, t, data, sources).unwrap();
                            lemma_drawn_from_within(m.vertices, data.positions, points);
                            lemma_push_sound(r, points, m);
                        }
                    },
                    Primitive::PolyList(l) => {
                        if l.p is Some {
                            lemma_polylist_mesh_sound(name, l, data, sources);
                            let m = polylist_mesh(name, l, data, sources).unwrap();
                            lemma_drawn_from_within(m.vertices, data.positions, points);
                            lemma_push_sound(r, points, m);
                        }
                    },
                    _ => {},
                }
                lemma_primitives_sound(next, points, name, primitives, i + 1, data, sources);
            },
            Err(_) => {},
        }
    }
}

proof fn lemma_vertex_inputs_sound(
    data: VertexDataView,
    aabb: AABB,
    points: Seq<Vec3>,
    inputs: Seq<InputUnshared>,
    i: int,
    sources: Seq<SourceCore>,
) -> (all: Seq<Vec3>)
    requires
        aabb == AABB::of_points(points),
        within(data.positions, points),
    ensures
        data.with_vertex_inputs(aabb, inputs, i, sources) matches Ok((d, b)) ==> b
            == AABB::of_points(all) && within(d.positions, all),
        exists|added: Seq<Vec3>| all == points + added,
    decreases inputs.len() - i,
{
    if 0 <= i < inputs.len() {
        match data.with_vertex_input(aabb, inputs[i], sources) {
            Ok((next, grown)) => {
                let added = if inputs[i].attr_semantic == InputSemantic::Position {
                    next.positions
                } else {
                    Seq::empty()
                };
                let mid = points + added;
                AABB::lemma_of_points_concat(points, added);
                if inputs[i].attr_semantic == InputSemantic::Position {
                    lemma_within_added(points, added);
                } else {
                    assert(points + added =~= points);
                }
                let all = lemma_vertex_inputs_sound(next, grown, mid, inputs, i + 1, sources);
                let more = choose|more: Seq<Vec3>| all == mid + more;
                assert(all =~= points + (added + more));
                all
            },
            Err(_) => {
                assert(points =~= points + Seq::<Vec3>::empty());
                points
            },
        }
    } else {
        assert(points =~= points + Seq::<Vec3>::empty());
        points
    }
}

proof fn lemma_extended_sound(r: Resolved, points: Seq<Vec3>, added: Seq<Vec3>, aabb: AABB)
    requires
        r.is_sound(points),
        aabb == AABB::of_points(points + added),
    ensures
        (Resolved { aabb, ..r }).is_sound(points + added),
{
    let t = Resolved { aabb, ..r };
    assert forall|i: int| 0 <= i < t.meshes.len() implies {
        &&& (#[trigger] t.meshes[i]).is_indexed()
        &&& drawn_from(t.meshes[i].vertices, points + added)
    } by {
        lemma_drawn_from_extended(r.meshes[i].vertices, points, added);
    }
}

proof fn lemma_instance_sound(
    r: Resolved,
    points: Seq<Vec3>,
    name: Seq<u8>,
    url: Seq<u8>,
    libraries: Seq<Library>,
) -> (all: Seq<Vec3>)
    requires
        r.is_sound(points),
    ensures
        r.after_instance(name, url, libraries) matches Ok(next) ==> next.is_sound(all),
{
    match find_geometry(libraries, url) {
        Some(g) => match g.geometric_element {
            GeometricElement::Mesh(m) => {
                let all = lemma_vertex_inputs_sound(
                    VertexDataView::empty(),
                    r.aabb,
                    points,
                    m.vertices.inputs@,
                    0,
                    m.sources@,
                );
                match VertexDataView::empty().with_vertex_inputs(
                    r.aabb,
                    m.vertices.inputs@,
                    0,
                    m.sources@,
                ) {
                    Ok((data, aabb)) => {
                        let added = choose|added: Seq<Vec3>| all == points + added;
                        lemma_extended_sound(r, points, added, aabb);
                        lemma_primitives_sound(
                            Resolved { aabb, ..r },
                            all,
                            name,
                            m.primitives@,
                            0,
                            data,
                            m.sources@,
                        );
                    },
                    Err(_) => {},
                }
                all
            },
            _ => points,
        },
        None => points,
    }
}

proof fn lemma_instances_sound(
    r: Resolved,
    points: Seq<Vec3>,
    name: Seq<u8>,
    instances: Seq<InstanceGeometry>,
    i: int,
    libraries: Seq<Library>,
) -> (all: Seq<Vec3>)
    requires
        r.is_sound(points),
    ensures
        r.after_instances(name, instances, i, libraries) matches Ok(next) ==> next.is_sound(all),
    decreases instances.len() - i,
{
    if 0 <= i < instances.len() {
        let mid = lemma_instance_sound(r, points, name, instances[i].attr_url@, libraries);
        match r.after_instance(name, instances[i].attr_url@, libraries) {
            Ok(next) => lemma_instances_sound(next, mid, name, instances, i + 1, libraries),
            Err(_) => points,
        }
    } else {
        points
    }
}

proof fn lemma_nodes_sound(
    r: Resolved,
    points: Seq<Vec3>,
    nodes: Seq<Node>,
    i: int,
    libraries: Seq<Library>,
) -> (all: Seq<Vec3>)
    requires
        r.is_sound(points),
    ensures
        r.after_nodes(nodes, i, libraries) matches Ok(next) ==> next.is_sound(all),
    decreases nodes.len() - i,
{
    if 0 <= i < nodes.len() {
        if nodes[i].attr_type != NodeType::Node {
            lemma_nodes_sound(r, points, nodes, i + 1, libraries)
        } else {
            let mid = lemma_instances_sound(
                r,
                points,
                node_name(nodes[i]),
                nodes[i].instance_geometry@,
                0,
                libraries,
            );
            match r.after_instances(
                node_name(nodes[i]),
                nodes[i].instance_geometry@,
                0,
                libraries,
            ) {
                Ok(next) => lemma_nodes_sound(next, mid, nodes, i + 1, libraries),
                Err(_) => points,
            }
        }
    } else {
        points
    }
}

/// The object of a document is made of triangles over the vertices of
/// each sub-mesh, and its box bounds its vertices.
pub proof fn lemma_resolved_sound(doc: ColladaDocument)
    ensures
        resolved(doc) matches Ok(o) ==> o.is_indexed() && o.bounds_vertices(),
{
    match resolved(doc) {
        Ok(o) => {
            let start = Resolved::start();
            let none = Seq::<Vec3>::empty();
            assert(start.is_sound(none));
            match doc.scene {
                None => {
                    assert(o.is_drawn_from(none));
                    lemma_object_bounds(o, none);
                },
                Some(s) => {
                    let scene = find_scene(
                        doc.libraries@,
                        s.instance_visual_scene.unwrap().attr_url@,
                    ).unwrap();
                    let all = lemma_nodes_sound(start, none, scene.nodes@, 0, doc.libraries@);
                    assert(o.is_drawn_from(all));
                    lemma_object_bounds(o, all);
                },
            }
        },
        Err(_) => {},
    }
}

} // verus!
