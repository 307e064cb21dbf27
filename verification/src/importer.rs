//! What every importer produces: objects made of sub-meshes with materials.
pub mod obj;
pub mod mtl;
pub mod stl;
pub mod fbx;
pub mod collada;

use vstd::prelude::*;
use vstd::string::StringSliceAdditionalSpecFns;
use vstd::slice::slice_to_vec;
use crate::aabb::AABB;
use crate::mesh::Vertex;
use crate::scalar::{Scalar, Value, Vec3, ONE_BITS};
use crate::text::is_word;

verus! {

/// Why an import failed.
#[derive(Clone, Copy, Debug, PartialEq, Eq, Structural)]
pub enum ImportError {
    /// The file's extension is missing or names no supported format.
    UnsupportedFormat,
    /// Something that the document refers to or has to hold is missing.
    MalformedDocument,
    /// A directive holds fewer values than it needs.
    IncompleteData,
    /// A word that has to write a number writes none.
    MalformedNumber,
    /// A reference points outside the list it refers to.
    IndexOutOfRange,
    /// A sub-mesh would hold more vertices than a 32-bit index can address.
    TooManyVertices,
}

/// The role of a texture in a material.
#[derive(Clone, Copy, Debug, PartialEq, Eq, Structural)]
pub enum TextureType {
    Ambient,
    Diffuse,
    Specular,
    SpecularHighlight,
    Bump,
    Displacement,
    Decal,
    Reflection,
    Emissive,
}

impl TextureType {
    /// The role that a material file's texture keyword stands for.
    pub open spec fn of_keyword(token: Seq<u8>) -> Option<TextureType> {
        if token == "map_Ka".spec_bytes() {
            Some(TextureType::Ambient)
        } else if token == "map_Kd".spec_bytes() {
            Some(TextureType::Diffuse)
        } else if token == "map_Ks".spec_bytes() {
            Some(TextureType::Specular)
        } else if token == "map_Ns".spec_bytes() {
            Some(TextureType::SpecularHighlight)
        } else if token == "map_bump".spec_bytes() {
            Some(TextureType::Bump)
        } else if token == "map_d".spec_bytes() {
            Some(TextureType::Displacement)
        } else if token == "decal".spec_bytes() {
            Some(TextureType::Decal)
        } else if token == "refl".spec_bytes() {
            Some(TextureType::Reflection)
        } else if token == "map_Ke".spec_bytes() {
            Some(TextureType::Emissive)
        } else {
            None
        }
    }

    /// The role that a texture keyword stands for, the keyword given by its
    /// bytes.
    pub fn from_material_word(token: &[u8]) -> (r: Option<TextureType>)
        ensures
            r == TextureType::of_keyword(token@),
    {
        if is_word(token, "map_Ka") {
            Some(TextureType::Ambient)
        } else if is_word(token, "map_Kd") {
            Some(TextureType::Diffuse)
        } else if is_word(token, "map_Ks") {
            Some(TextureType::Specular)
        } else if is_word(token, "map_Ns") {
            Some(TextureType::SpecularHighlight)
        } else if is_word(token, "map_bump") {
            Some(TextureType::Bump)
        } else if is_word(token, "map_d") {
            Some(TextureType::Displacement)
        } else if is_word(token, "decal") {
            Some(TextureType::Decal)
        } else if is_word(token, "refl") {
            Some(TextureType::Reflection)
        } else if is_word(token, "map_Ke") {
            Some(TextureType::Emissive)
        } else {
            None
        }
    }

    /// The role that a texture keyword stands for.
    pub fn from_material_str(token: &str) -> (r: Option<TextureType>)
        ensures
            r == TextureType::of_keyword(token.spec_bytes()),
    {
        TextureType::from_material_word(token.as_bytes())
    }
}

/// A texture that was loaded: the handle that the loader gave, and the role
/// the texture plays.
#[derive(Clone, Copy, Debug, PartialEq, Eq, Structural)]
pub struct Texture {
    pub id: u32,
    pub typ: TextureType,
}

impl Texture {
    /// The texture with the given handle and role.
    pub fn new(id: u32, typ: TextureType) -> (r: Texture)
        ensures
            r == (Texture { id, typ }),
    {
        Texture { id, typ }
    }
}

/// A copy of a word's bytes.
pub fn word_bytes(word: &str) -> (r: Vec<u8>)
    ensures
        r@ == word.spec_bytes(),
{
    slice_to_vec(word.as_bytes())
}

/// A copy of a byte string.
pub fn copy_bytes(s: &Vec<u8>) -> (r: Vec<u8>)
    ensures
        r@ == s@,
{
    slice_to_vec(s.as_slice())
}

/// A surface material.
#[derive(Clone, Debug)]
pub struct Material {
    pub name: Vec<u8>,
    pub ambient_color: Vec3,
    pub diffuse_color: Vec3,
    pub specular_color: Vec3,
    pub specular_exponent: Scalar,
    pub opacity: Value,
    pub textures: Vec<Texture>,
}

/// What a [`Material`] holds.
pub struct MaterialView {
    pub name: Seq<u8>,
    pub ambient_color: Vec3,
    pub diffuse_color: Vec3,
    pub specular_color: Vec3,
    pub specular_exponent: Scalar,
    pub opacity: Value,
    pub textures: Seq<Texture>,
}

impl View for Material {
    type V = MaterialView;

    open spec fn view(&self) -> MaterialView {
        MaterialView {
            name: self.name@,
            ambient_color: self.ambient_color,
            diffuse_color: self.diffuse_color,
            specular_color: self.specular_color,
            specular_exponent: self.specular_exponent,
            opacity: self.opacity,
            textures: self.textures@,
        }
    }
}

/// The three components equal to the number of the given bits.
pub open spec fn grey(bits: u32) -> Vec3 {
    Vec3 { x: Scalar { bits }, y: Scalar { bits }, z: Scalar { bits } }
}

impl MaterialView {
    /// The material of a mesh that names none: `default_mat`, ambient 0.4,
    /// diffuse 0.7, specular 0.1, exponent 32, opaque, no textures.
    pub open spec fn default_material() -> MaterialView {
        MaterialView {
            name: "default_mat".spec_bytes(),
            ambient_color: grey(0x3ecc_cccd),
            diffuse_color: grey(0x3f33_3333),
            specular_color: grey(0x3dcc_cccd),
            specular_exponent: Scalar { bits: 0x4200_0000 },
            opacity: Value::Plain(Scalar { bits: ONE_BITS }),
            textures: Seq::empty(),
        }
    }
}

impl Material {
    /// The material with the given attributes.
    pub fn new(
        name: Vec<u8>,
        ambient: Vec3,
        diffuse: Vec3,
        specular: Vec3,
        shininess: Scalar,
        opacity: Value,
        textures: Vec<Texture>,
    ) -> (r: Material)
        ensures
            r@ == (MaterialView {
                name: name@,
                ambient_color: ambient,
                diffuse_color: diffuse,
                specular_color: specular,
                specular_exponent: shininess,
                opacity,
                textures: textures@,
            }),
    {
        Material {
            name,
            ambient_color: ambient,
            diffuse_color: diffuse,
            specular_color: specular,
            specular_exponent: shininess,
            opacity,
            textures,
        }
    }

    /// A copy of the material.
    pub fn duplicate(&self) -> (r: Material)
        ensures
            r@ == self@,
    {
        Material {
            name: copy_bytes(&self.name),
            ambient_color: self.ambient_color,
            diffuse_color: self.diffuse_color,
            specular_color: self.specular_color,
            specular_exponent: self.specular_exponent,
            opacity: self.opacity,
            textures: slice_to_vec(self.textures.as_slice()),
        }
    }
}

impl Default for Material {
    fn default() -> (r: Material)
        ensures
            r@ == MaterialView::default_material(),
    {
        let g4 = Scalar { bits: 0x3ecc_cccd };
        let g7 = Scalar { bits: 0x3f33_3333 };
        let g1 = Scalar { bits: 0x3dcc_cccd };
        Material {
            name: word_bytes("default_mat"),
            ambient_color: Vec3 { x: g4, y: g4, z: g4 },
            diffuse_color: Vec3 { x: g7, y: g7, z: g7 },
            specular_color: Vec3 { x: g1, y: g1, z: g1 },
            specular_exponent: Scalar { bits: 0x4200_0000 },
            opacity: Value::Plain(Scalar { bits: ONE_BITS }),
            textures: Vec::new(),
        }
    }
}

/// What an optional material holds.
pub open spec fn material_view(m: Option<Material>) -> Option<MaterialView> {
    match m {
        Some(m) => Some(m@),
        None => None,
    }
}

/// What each material of a list holds.
pub open spec fn material_views(s: Seq<Material>) -> Seq<MaterialView> {
    Seq::new(s.len(), |i: int| s[i]@)
}

/// A copy of an optional material.
pub fn duplicate_material(m: &Option<Material>) -> (r: Option<Material>)
    ensures
        material_view(r) == material_view(*m),
{
    match m {
        Some(m) => Some(m.duplicate()),
        None => None,
    }
}

/// A sub-mesh: vertices, and triangles as triples of indices into them.
#[derive(Clone, Debug)]
pub struct ObjMesh {
    pub name: Vec<u8>,
    pub vertices: Vec<Vertex>,
    pub indices: Vec<u32>,
    pub material: Option<Material>,
}

/// What an [`ObjMesh`] holds.
pub struct ObjMeshView {
    pub name: Seq<u8>,
    pub vertices: Seq<Vertex>,
    pub indices: Seq<u32>,
    pub material: Option<MaterialView>,
}

/// Whether an index list is made of triangles over `vertices` vertices: its
/// length is a multiple of three and each index is less than `vertices`.
pub open spec fn is_triangle_list(indices: Seq<u32>, vertices: nat) -> bool {
    &&& indices.len() % 3 == 0
    &&& forall|i: int| 0 <= i < indices.len() ==> (#[trigger] indices[i]) < vertices
}

impl ObjMeshView {
    /// The index list is made of triangles over the mesh's own vertices.
    pub open spec fn is_indexed(self) -> bool {
        is_triangle_list(self.indices, self.vertices.len())
    }
}

impl View for ObjMesh {
    type V = ObjMeshView;

    open spec fn view(&self) -> ObjMeshView {
        ObjMeshView {
            name: self.name@,
            vertices: self.vertices@,
            indices: self.indices@,
            material: material_view(self.material),
        }
    }
}

/// What each sub-mesh of a list holds.
pub open spec fn mesh_views(s: Seq<ObjMesh>) -> Seq<ObjMeshView> {
    Seq::new(s.len(), |i: int| s[i]@)
}

/// An imported model: sub-meshes in the order in which the file held them,
/// and the box around the positions that the file gave.
#[derive(Clone, Debug)]
pub struct Object {
    pub name: Vec<u8>,
    pub meshes: Vec<ObjMesh>,
    pub aabb: AABB,
}

/// What an [`Object`] holds.
pub struct ObjectView {
    pub name: Seq<u8>,
    pub meshes: Seq<ObjMeshView>,
    pub aabb: AABB,
}

impl ObjectView {
    /// Every sub-mesh is made of triangles over its own vertices.
    pub open spec fn is_indexed(self) -> bool {
        forall|i: int| 0 <= i < self.meshes.len() ==> (#[trigger] self.meshes[i]).is_indexed()
    }

    /// The box is the box of `points`, and each vertex lies at one of them.
    pub open spec fn is_drawn_from(self, points: Seq<Vec3>) -> bool {
        &&& self.aabb == AABB::of_points(points)
        &&& forall|i: int|
            0 <= i < self.meshes.len() ==> crate::mesh::drawn_from(
                (#[trigger] self.meshes[i]).vertices,
                points,
            )
    }

    /// The box holds the position of each vertex that has no NaN
    /// component, and if there is such a vertex, the box is ordered:
    /// `min <= max` on every axis.
    pub open spec fn bounds_vertices(self) -> bool {
        &&& forall|i: int, j: int|
            0 <= i < self.meshes.len() && 0 <= j < self.meshes[i].vertices.len() && (
            #[trigger] self.meshes[i].vertices[j]).position.is_numeric() ==> self.aabb.contains(
                self.meshes[i].vertices[j].position,
            )
        &&& (exists|i: int, j: int|
            0 <= i < self.meshes.len() && 0 <= j < self.meshes[i].vertices.len() && (
            #[trigger] self.meshes[i].vertices[j]).position.is_numeric())
            ==> self.aabb.is_ordered()
    }
}

/// An object whose box is the box of some points, each vertex lying at
/// one of them, bounds its vertices.
pub proof fn lemma_object_bounds(object: ObjectView, points: Seq<Vec3>)
    requires
        object.is_drawn_from(points),
    ensures
        object.bounds_vertices(),
{
    AABB::lemma_bounds_points(points);
    assert forall|i: int, j: int|
        0 <= i < object.meshes.len() && 0 <= j < object.meshes[i].vertices.len() && (
        #[trigger] object.meshes[i].vertices[j]).position.is_numeric()
            implies object.aabb.contains(object.meshes[i].vertices[j].position) by {
        let p = object.meshes[i].vertices[j].position;
        assert(crate::mesh::drawn_from(object.meshes[i].vertices, points));
        assert(points.contains(p));
        let k = choose|k: int| 0 <= k < points.len() && points[k] == p;
        assert(AABB::of_points(points).contains(points[k]));
    }
    if exists|i: int, j: int|
        0 <= i < object.meshes.len() && 0 <= j < object.meshes[i].vertices.len() && (
        #[trigger] object.meshes[i].vertices[j]).position.is_numeric() {
        let (i, j) = choose|i: int, j: int|
            0 <= i < object.meshes.len() && 0 <= j < object.meshes[i].vertices.len() && (
            #[trigger] object.meshes[i].vertices[j]).position.is_numeric();
        let p = object.meshes[i].vertices[j].position;
        assert(object.aabb.contains(p));
    }
}

impl View for Object {
    type V = ObjectView;

    open spec fn view(&self) -> ObjectView {
        ObjectView { name: self.name@, meshes: mesh_views(self.meshes@), aabb: self.aabb }
    }
}

} // verus!
