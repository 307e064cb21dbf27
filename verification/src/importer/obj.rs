//! Wavefront OBJ: a line-by-line reader that gathers positions, normals and
//! texture coordinates and assembles faces into sub-meshes.
//!
//! The reader is fed one line at a time. Opening a material library is the
//! caller's work: a `mtllib` line hands back the names of the libraries, and
//! what they hold is given to the reader before the next line.
use vstd::prelude::*;
use vstd::string::StringSliceAdditionalSpecFns;
use crate::aabb::AABB;
use crate::importer::{
    duplicate_material, is_triangle_list, material_view, material_views, mesh_views, word_bytes,
    ImportError, Material, MaterialView, ObjMesh, ObjMeshView, Object, ObjectView,
};
use crate::mesh::{drawn_from, fan, lemma_fan_in_range, push_fan, Normal, TexCoords, Vertex};
use crate::scalar::{Value, Vec3};
use crate::text::{
    blank, bytes_eq, copy_word_or, fields_of, has_words, i32_of, is_blank, is_word, numbers_at, parse_i32,
    read_numbers, split_on, texts_of, token_views, views, word_or, Token, TokenView,
};

verus! {

/// The directives of an OBJ file.
#[derive(Clone, Copy, Debug, PartialEq, Eq, Structural)]
pub enum ObjToken {
    Object,
    Group,
    Vertex,
    Normal,
    TexCoord,
    Face,
    Point,
    Line,
    SmoothShading,
    MaterialLib,
    MaterialUsage,
}

impl ObjToken {
    /// The directive that a line's first word stands for.
    pub open spec fn of_keyword(s: Seq<u8>) -> Option<ObjToken> {
        if s == "o".spec_bytes() {
            Some(ObjToken::Object)
        } else if s == "g".spec_bytes() {
            Some(ObjToken::Group)
        } else if s == "v".spec_bytes() {
            Some(ObjToken::Vertex)
        } else if s == "vn".spec_bytes() {
            Some(ObjToken::Normal)
        } else if s == "vt".spec_bytes() {
            Some(ObjToken::TexCoord)
        } else if s == "f".spec_bytes() {
            Some(ObjToken::Face)
        } else if s == "p".spec_bytes() {
            Some(ObjToken::Point)
        } else if s == "l".spec_bytes() {
            Some(ObjToken::Line)
        } else if s == "s".spec_bytes() {
            Some(ObjToken::SmoothShading)
        } else if s == "mtllib".spec_bytes() {
            Some(ObjToken::MaterialLib)
        } else if s == "usemtl".spec_bytes() {
            Some(ObjToken::MaterialUsage)
        } else {
            None
        }
    }

    /// The directive that a word stands for, the word given by its bytes.
    pub fn from_word(s: &[u8]) -> (r: Option<ObjToken>)
        ensures
            r == ObjToken::of_keyword(s@),
    {
        if is_word(s, "o") {
            Some(ObjToken::Object)
        } else if is_word(s, "g") {
            Some(ObjToken::Group)
        } else if is_word(s, "v") {
            Some(ObjToken::Vertex)
        } else if is_word(s, "vn") {
            Some(ObjToken::Normal)
        } else if is_word(s, "vt") {
            Some(ObjToken::TexCoord)
        } else if is_word(s, "f") {
            Some(ObjToken::Face)
        } else if is_word(s, "p") {
            Some(ObjToken::Point)
        } else if is_word(s, "l") {
            Some(ObjToken::Line)
        } else if is_word(s, "s") {
            Some(ObjToken::SmoothShading)
        } else if is_word(s, "mtllib") {
            Some(ObjToken::MaterialLib)
        } else if is_word(s, "usemtl") {
            Some(ObjToken::MaterialUsage)
        } else {
            None
        }
    }

    /// The directive that a word stands for.
    pub fn from_str(s: &str) -> (r: Option<ObjToken>)
        ensures
            r == ObjToken::of_keyword(s.spec_bytes()),
    {
        ObjToken::from_word(s.as_bytes())
    }
}

/// One corner of a face as the file writes it: references into the lists
/// of positions, texture coordinates and normals. A positive reference
/// counts from 1, a negative one back from the end of its list.
#[derive(Clone, Copy, Debug, PartialEq, Eq, Structural)]
pub struct CornerRef {
    pub position: i32,
    pub tex_coord: Option<i32>,
    pub normal: Option<i32>,
}

/// The corner that one of the four spellings `v`, `v/vt`, `v/vt/vn` and
/// `v//vn` writes.
pub open spec fn corner_of(text: Seq<u8>) -> Option<CornerRef> {
    let parts = fields_of(text, 47);
    if parts.len() == 1 {
        match i32_of(parts[0]) {
            Some(p) => Some(CornerRef { position: p, tex_coord: None, normal: None }),
            None => None,
        }
    } else if parts.len() == 2 {
        match (i32_of(parts[0]), i32_of(parts[1])) {
            (Some(p), Some(t)) => Some(CornerRef { position: p, tex_coord: Some(t), normal: None }),
            _ => None,
        }
    } else if parts.len() == 3 {
        match (i32_of(parts[0]), i32_of(parts[2])) {
            (Some(p), Some(n)) => if parts[1].len() == 0 {
                Some(CornerRef { position: p, tex_coord: None, normal: Some(n) })
            } else {
                match i32_of(parts[1]) {
                    Some(t) => Some(CornerRef { position: p, tex_coord: Some(t), normal: Some(n) }),
                    None => None,
                }
            },
            _ => None,
        }
    } else {
        None
    }
}

/// Reads one corner of a face.
pub fn parse_corner(text: &[u8]) -> (r: Option<CornerRef>)
    ensures
        r == corner_of(text@),
{
    let parts = split_on(text, 47);
    let ghost pv = views(parts@);
    assert(parts@.len() == pv.len());
    if parts.len() == 1 {
        assert(pv[0] == parts@[0]@);
        match parse_i32(parts[0].as_slice()) {
            Some(p) => Some(CornerRef { position: p, tex_coord: None, normal: None }),
            None => None,
        }
    } else if parts.len() == 2 {
        assert(pv[0] == parts@[0]@ && pv[1] == parts@[1]@);
        match (parse_i32(parts[0].as_slice()), parse_i32(parts[1].as_slice())) {
            (Some(p), Some(t)) => Some(CornerRef { position: p, tex_coord: Some(t), normal: None }),
            _ => None,
        }
    } else if parts.len() == 3 {
        assert(pv[0] == parts@[0]@ && pv[1] == parts@[1]@ && pv[2] == parts@[2]@);
        match (parse_i32(parts[0].as_slice()), parse_i32(parts[2].as_slice())) {
            (Some(p), Some(n)) => if parts[1].len() == 0 {
                Some(CornerRef { position: p, tex_coord: None, normal: Some(n) })
            } else {
                match parse_i32(parts[1].as_slice()) {
                    Some(t) => Some(CornerRef { position: p, tex_coord: Some(t), normal: Some(n) }),
                    None => None,
                }
            },
            _ => None,
        }
    } else {
        None
    }
}

/// The place in a list of `len` items that the reference `k` points at:
/// `k - 1` for a positive `k`, `len + k` for a negative one, none where that
/// lies outside the list or `k` is 0.
pub open spec fn resolve(k: int, len: int) -> Option<int> {
    if 0 < k <= len {
        Some(k - 1)
    } else if k < 0 && len + k >= 0 {
        Some(len + k)
    } else {
        None
    }
}

/// A negative reference points at the same place as the positive reference
/// to the same item: `-j` counts `j` items back from the end, so `-1` is the
/// last item.
pub proof fn lemma_negative_reference(j: int, len: int)
    requires
        1 <= j <= len,
    ensures
        resolve(-j, len) == resolve(len - j + 1, len),
        resolve(-j, len) == Some(len - j),
        resolve(-1, len) == Some(len - 1),
{
}

/// Resolves a reference into a list of `len` items.
pub fn resolve_index(k: i32, len: usize) -> (r: Option<usize>)
    ensures
        match r {
            Some(i) => resolve(k as int, len as int) == Some(i as int),
            None => resolve(k as int, len as int) is None,
        },
{
    if k > 0 {
        let j: usize = (k - 1) as usize;
        if j < len {
            Some(j)
        } else {
            None
        }
    } else if k < 0 {
        let back: u64 = (-(k as i64)) as u64;
        if back <= len as u64 {
            Some(len - back as usize)
        } else {
            None
        }
    } else {
        None
    }
}

/// What a reader of OBJ lines holds.
pub struct ObjState {
    /// The positions, normals and texture coordinates read so far.
    pub positions: Seq<Vec3>,
    pub normals: Seq<Vec3>,
    pub tex_coords: Seq<TexCoords>,
    /// The sub-mesh in progress.
    pub vertices: Seq<Vertex>,
    pub indices: Seq<u32>,
    /// The sub-meshes that are complete.
    pub meshes: Seq<ObjMeshView>,
    pub object_name: Seq<u8>,
    pub mesh_name: Seq<u8>,
    /// The material in use, and the materials known by name.
    pub material: Option<MaterialView>,
    pub materials: Seq<MaterialView>,
    /// The box around the positions read so far.
    pub aabb: AABB,
}

/// What a line asks of the caller.
#[derive(Debug)]
pub enum ObjOutcome {
    /// Nothing: the line was taken in.
    Done,
    /// Nothing: the line's first word is no directive and the line was
    /// passed over.
    Unknown,
    /// The line names material libraries. The caller reads each and hands
    /// what it holds to [`ObjParser::add_materials`], in this order.
    Libraries(Vec<Vec<u8>>),
}

/// What an [`ObjOutcome`] holds.
pub enum ObjOutcomeView {
    Done,
    Unknown,
    Libraries(Seq<Seq<u8>>),
}

impl View for ObjOutcome {
    type V = ObjOutcomeView;

    open spec fn view(&self) -> ObjOutcomeView {
        match self {
            ObjOutcome::Done => ObjOutcomeView::Done,
            ObjOutcome::Unknown => ObjOutcomeView::Unknown,
            ObjOutcome::Libraries(names) => ObjOutcomeView::Libraries(views(names@)),
        }
    }
}

/// What the result of feeding a line holds.
pub open spec fn outcome_view(r: Result<ObjOutcome, ImportError>) -> Result<
    ObjOutcomeView,
    ImportError,
> {
    match r {
        Ok(o) => Ok(o@),
        Err(e) => Err(e),
    }
}

/// The last material of a list that has the given name.
pub open spec fn find_material(materials: Seq<MaterialView>, name: Seq<u8>) -> Option<
    MaterialView,
>
    decreases materials.len(),
{
    if materials.len() == 0 {
        None
    } else if materials.last().name == name {
        Some(materials.last())
    } else {
        find_material(materials.drop_last(), name)
    }
}

/// A copy of the last material of a list that has the given name.
pub fn lookup_material(materials: &Vec<Material>, name: &Vec<u8>) -> (r: Option<Material>)
    ensures
        material_view(r) == find_material(material_views(materials@), name@),
{
    let ghost all = material_views(materials@);
    let mut i: usize = materials.len();
    assert(all.take(i as int) =~= all);
    while i > 0
        invariant
            i <= materials@.len(),
            all == material_views(materials@),
            find_material(all, name@) == find_material(all.take(i as int), name@),
        decreases i,
    {
        i -= 1;
        assert(all.take(i + 1).last() == materials@[i as int]@);
        assert(all.take(i + 1).drop_last() =~= all.take(i as int));
        if bytes_eq(materials[i].name.as_slice(), name.as_slice()) {
            return Some(materials[i].duplicate());
        }
    }
    None
}

impl ObjState {
    /// The state before the first line.
    pub open spec fn initial() -> ObjState {
        ObjState {
            positions: Seq::empty(),
            normals: Seq::empty(),
            tex_coords: Seq::empty(),
            vertices: Seq::empty(),
            indices: Seq::empty(),
            meshes: Seq::empty(),
            object_name: Seq::empty(),
            mesh_name: Seq::empty(),
            material: None,
            materials: Seq::empty(),
            aabb: AABB::spec_empty(),
        }
    }

    /// The name of the sub-mesh that an `o` or `g` line closes: the group's
    /// name, or the object's where no group was named.
    pub open spec fn section_name(self) -> Seq<u8> {
        if self.mesh_name.len() == 0 {
            self.object_name
        } else {
            self.mesh_name
        }
    }

    /// The name of the sub-mesh that a `usemtl` line or the end of the file
    /// closes: the group's name, else the object's, else `default_mesh`.
    pub open spec fn closing_name(self) -> Seq<u8> {
        if self.mesh_name.len() > 0 {
            self.mesh_name
        } else if self.object_name.len() > 0 {
            self.object_name
        } else {
            "default_mesh".spec_bytes()
        }
    }

    /// The sub-mesh in progress under the given name.
    pub open spec fn mesh_in_progress(self, name: Seq<u8>) -> ObjMeshView {
        ObjMeshView {
            name,
            vertices: self.vertices,
            indices: self.indices,
            material: self.material,
        }
    }

    /// The state after the sub-mesh in progress was closed under the given
    /// name: it joins the complete ones if it has a vertex, and a new one
    /// starts empty.
    pub open spec fn flushed(self, name: Seq<u8>) -> ObjState {
        ObjState {
            meshes: if self.vertices.len() > 0 {
                self.meshes.push(self.mesh_in_progress(name))
            } else {
                self.meshes
            },
            vertices: Seq::empty(),
            indices: Seq::empty(),
            ..self
        }
    }

    /// Whether each reference of a corner points into its list.
    pub open spec fn resolves(self, c: CornerRef) -> bool {
        &&& resolve(c.position as int, self.positions.len() as int) is Some
        &&& c.tex_coord matches Some(t) ==> resolve(t as int, self.tex_coords.len() as int) is Some
        &&& c.normal matches Some(n) ==> resolve(n as int, self.normals.len() as int) is Some
    }

    /// The position that a corner refers to.
    pub open spec fn position_of(self, c: CornerRef) -> Vec3 {
        self.positions[resolve(c.position as int, self.positions.len() as int).unwrap()]
    }

    /// The vertex of a corner: the position, texture coordinate and normal
    /// that it refers to, `(0, 0)` where it names no texture coordinate and
    /// `fallback` where it names no normal.
    pub open spec fn vertex_of(self, c: CornerRef, fallback: Normal) -> Vertex {
        Vertex {
            position: self.position_of(c),
            normal: match c.normal {
                Some(n) => Normal::Given(
                    self.normals[resolve(n as int, self.normals.len() as int).unwrap()],
                ),
                None => fallback,
            },
            tex_coords: match c.tex_coord {
                Some(t) => self.tex_coords[resolve(t as int, self.tex_coords.len() as int).unwrap()],
                None => TexCoords::spec_zero(),
            },
        }
    }

    /// The normal of the corners of a face that name none: that of the
    /// triangle of the face's first three corners while the file has given
    /// no normal at all, the zero vector afterwards.
    pub open spec fn fallback_normal(self, corners: Seq<CornerRef>) -> Normal {
        if self.normals.len() == 0 {
            Normal::Facet(
                self.position_of(corners[0]),
                self.position_of(corners[1]),
                self.position_of(corners[2]),
            )
        } else {
            Normal::Given(Vec3::spec_zero())
        }
    }

    /// The state after a face of the given corners, and what the line gives.
    pub open spec fn after_face(self, words: Seq<Seq<u8>>) -> (
        ObjState,
        Result<ObjOutcomeView, ImportError>,
    ) {
        let corners = Seq::new(words.len(), |i: int| corner_of(words[i]).unwrap());
        if words.len() < 3 {
            (self, Err(ImportError::IncompleteData))
        } else if !(forall|i: int| 0 <= i < words.len() ==> corner_of(#[trigger] words[i]) is Some) {
            (self, Err(ImportError::MalformedNumber))
        } else if self.vertices.len() + words.len() > u32::MAX {
            (self, Err(ImportError::TooManyVertices))
        } else if !(forall|i: int| 0 <= i < corners.len() ==> self.resolves(#[trigger] corners[i])) {
            (self, Err(ImportError::IndexOutOfRange))
        } else {
            let fallback = self.fallback_normal(corners);
            (
                ObjState {
                    vertices: self.vertices + Seq::new(
                        corners.len(),
                        |i: int| self.vertex_of(corners[i], fallback),
                    ),
                    indices: self.indices + fan(self.vertices.len() as int, corners.len() as int),
                    ..self
                },
                Ok(ObjOutcomeView::Done),
            )
        }
    }

    /// The three numbers of a `v` or `vn` line.
    pub open spec fn triple(line: Seq<TokenView>) -> Result<Vec3, ImportError> {
        if !has_words(line, 1, 3) {
            Err(ImportError::IncompleteData)
        } else {
            match numbers_at(line, 1, 3) {
                Some(n) => Ok(Vec3 { x: n[0], y: n[1], z: n[2] }),
                None => Err(ImportError::MalformedNumber),
            }
        }
    }

    /// The texture coordinate of a `vt` line: `u` as written, and one minus
    /// the `v` written.
    pub open spec fn pair(line: Seq<TokenView>) -> Result<TexCoords, ImportError> {
        if !has_words(line, 1, 2) {
            Err(ImportError::IncompleteData)
        } else {
            match numbers_at(line, 1, 2) {
                Some(n) => Ok(TexCoords { u: n[0], v: Value::OneMinus(n[1]) }),
                None => Err(ImportError::MalformedNumber),
            }
        }
    }

    /// The state after a line, and what the line gives. An empty line and
    /// a comment change nothing, and a line that fails leaves the state as
    /// it was.
    pub open spec fn step(self, line: Seq<TokenView>) -> (
        ObjState,
        Result<ObjOutcomeView, ImportError>,
    ) {
        if is_blank(line) {
            (self, Ok(ObjOutcomeView::Done))
        } else {
            match ObjToken::of_keyword(line[0].text) {
                None => (self, Ok(ObjOutcomeView::Unknown)),
                Some(ObjToken::Object) => (
                    ObjState {
                        object_name: word_or(line, 1, Seq::empty()),
                        ..self.flushed(self.section_name())
                    },
                    Ok(ObjOutcomeView::Done),
                ),
                Some(ObjToken::Group) => (
                    ObjState {
                        mesh_name: word_or(line, 1, "default_mesh".spec_bytes()),
                        ..self.flushed(self.section_name())
                    },
                    Ok(ObjOutcomeView::Done),
                ),
                Some(ObjToken::Vertex) => match ObjState::triple(line) {
                    Ok(p) => (
                        ObjState {
                            positions: self.positions.push(p),
                            aabb: self.aabb.spec_grow(p),
                            ..self
                        },
                        Ok(ObjOutcomeView::Done),
                    ),
                    Err(e) => (self, Err(e)),
                },
                Some(ObjToken::Normal) => match ObjState::triple(line) {
                    Ok(n) => (
                        ObjState { normals: self.normals.push(n), ..self },
                        Ok(ObjOutcomeView::Done),
                    ),
                    Err(e) => (self, Err(e)),
                },
                Some(ObjToken::TexCoord) => match ObjState::pair(line) {
                    Ok(t) => (
                        ObjState { tex_coords: self.tex_coords.push(t), ..self },
                        Ok(ObjOutcomeView::Done),
                    ),
                    Err(e) => (self, Err(e)),
                },
                Some(ObjToken::Face) => self.after_face(texts_of(line).skip(1)),
                Some(ObjToken::Point) => (self, Ok(ObjOutcomeView::Done)),
                Some(ObjToken::Line) => (self, Ok(ObjOutcomeView::Done)),
                Some(ObjToken::SmoothShading) => (self, Ok(ObjOutcomeView::Done)),
                Some(ObjToken::MaterialLib) => (
                    self,
                    Ok(ObjOutcomeView::Libraries(texts_of(line).skip(1))),
                ),
                Some(ObjToken::MaterialUsage) => (
                    ObjState {
                        material: find_material(self.materials, word_or(line, 1, Seq::empty())),
                        ..self.flushed(self.closing_name())
                    },
                    Ok(ObjOutcomeView::Done),
                ),
            }
        }
    }

    /// The object that the file gives once its last line was read: the
    /// sub-mesh in progress is closed, with or without vertices.
    pub open spec fn finished(self) -> ObjectView {
        ObjectView {
            name: self.object_name,
            meshes: self.meshes.push(self.mesh_in_progress(self.closing_name())),
            aabb: self.aabb,
        }
    }
}

impl ObjState {
    /// What holds of the state after any lines: the sub-meshes, complete or
    /// in progress, are made of triangles over their own vertices, each
    /// vertex lies at a position that was read, and the box is the box of
    /// the positions read.
    pub open spec fn well_formed(self) -> bool {
        &&& is_triangle_list(self.indices, self.vertices.len())
        &&& self.vertices.len() <= u32::MAX
        &&& drawn_from(self.vertices, self.positions)
        &&& self.aabb == AABB::of_points(self.positions)
        &&& forall|i: int|
            0 <= i < self.meshes.len() ==> {
                &&& (#[trigger] self.meshes[i]).is_indexed()
                &&& drawn_from(self.meshes[i].vertices, self.positions)
            }
    }
}

proof fn lemma_drawn_from_grows(vertices: Seq<Vertex>, pool: Seq<Vec3>, p: Vec3)
    requires
        drawn_from(vertices, pool),
    ensures
        drawn_from(vertices, pool.push(p)),
{
    assert forall|i: int| 0 <= i < vertices.len() implies pool.push(p).contains(
        (#[trigger] vertices[i]).position,
    ) by {
        let q = vertices[i].position;
        assert(pool.contains(q));
        let k = choose|k: int| 0 <= k < pool.len() && pool[k] == q;
        assert(pool.push(p)[k] == q);
    }
}

proof fn lemma_flushed_well_formed(s: ObjState, name: Seq<u8>)
    requires
        s.well_formed(),
    ensures
        s.flushed(name).well_formed(),
{
    let t = s.flushed(name);
    assert forall|i: int| 0 <= i < t.meshes.len() implies {
        &&& (#[trigger] t.meshes[i]).is_indexed()
        &&& drawn_from(t.meshes[i].vertices, t.positions)
    } by {
        if i < s.meshes.len() {
            assert(t.meshes[i] == s.meshes[i]);
        }
    }
}

proof fn lemma_face_well_formed(s: ObjState, words: Seq<Seq<u8>>)
    requires
        s.well_formed(),
    ensures
        s.after_face(words).0.well_formed(),
{
    let t = s.after_face(words).0;
    if t != s {
        let corners = Seq::new(words.len(), |i: int| corner_of(words[i]).unwrap());
        let fallback = s.fallback_normal(corners);
        let made = Seq::new(corners.len(), |i: int| s.vertex_of(corners[i], fallback));
        let first = s.vertices.len() as int;
        let n = corners.len() as int;
        lemma_fan_in_range(first, n);
        assert(t.vertices == s.vertices + made);
        assert(t.indices == s.indices + fan(first, n));
        assert forall|i: int| 0 <= i < t.indices.len() implies (#[trigger] t.indices[i])
            < t.vertices.len() by {
            if i >= s.indices.len() {
                assert(t.indices[i] == fan(first, n)[i - s.indices.len()]);
            }
        }
        assert forall|i: int| 0 <= i < t.vertices.len() implies t.positions.contains(
            (#[trigger] t.vertices[i]).position,
        ) by {
            if i >= s.vertices.len() {
                let c = corners[i - s.vertices.len()];
                assert(s.resolves(c));
                assert(t.vertices[i] == s.vertex_of(c, fallback));
                let k = resolve(c.position as int, s.positions.len() as int).unwrap();
                assert(s.positions[k] == t.vertices[i].position);
            } else {
                assert(t.vertices[i] == s.vertices[i]);
            }
        }
    }
}

/// A `vt` line stores `u` as written and `v` as one minus the `v` written.
pub proof fn lemma_texture_v_is_flipped(s: ObjState, line: Seq<TokenView>)
    requires
        line.len() >= 3,
        line[0].text == "vt".spec_bytes(),
        line[1].number is Some,
        line[2].number is Some,
    ensures
        s.step(line).0.tex_coords == s.tex_coords.push(
            TexCoords { u: line[1].number.unwrap(), v: Value::OneMinus(line[2].number.unwrap()) },
        ),
        s.step(line).1 == Ok::<ObjOutcomeView, ImportError>(ObjOutcomeView::Done),
{
    reveal_strlit("o");
    reveal_strlit("g");
    reveal_strlit("v");
    reveal_strlit("vn");
    reveal_strlit("vt");
    vstd::string::is_ascii_spec_bytes("o");
    vstd::string::is_ascii_spec_bytes("g");
    vstd::string::is_ascii_spec_bytes("v");
    vstd::string::is_ascii_spec_bytes("vn");
    vstd::string::is_ascii_spec_bytes("vt");
    assert("vt".spec_bytes().len() == 2);
    assert("vt".spec_bytes()[1] == 116);
    assert("vn".spec_bytes()[1] == 110);
    assert("o".spec_bytes().len() == 1);
    assert("g".spec_bytes().len() == 1);
    assert("v".spec_bytes().len() == 1);
    assert(ObjToken::of_keyword(line[0].text) == Some(ObjToken::TexCoord));
    assert(numbers_at(line, 1, 2) is Some);
}

/// A line keeps a well-formed state well-formed.
pub proof fn lemma_step_well_formed(s: ObjState, line: Seq<TokenView>)
    requires
        s.well_formed(),
    ensures
        s.step(line).0.well_formed(),
{
    let t = s.step(line).0;
    if !is_blank(line) {
        match ObjToken::of_keyword(line[0].text) {
            Some(ObjToken::Object) => {
                lemma_flushed_well_formed(s, s.section_name());
            },
            Some(ObjToken::Group) => {
                lemma_flushed_well_formed(s, s.section_name());
            },
            Some(ObjToken::MaterialUsage) => {
                lemma_flushed_well_formed(s, s.closing_name());
            },
            Some(ObjToken::Vertex) => {
                match ObjState::triple(line) {
                    Ok(p) => {
                        AABB::lemma_of_points_push(s.positions, p);
                        lemma_drawn_from_grows(s.vertices, s.positions, p);
                        assert forall|i: int| 0 <= i < t.meshes.len() implies {
                            &&& (#[trigger] t.meshes[i]).is_indexed()
                            &&& drawn_from(t.meshes[i].vertices, t.positions)
                        } by {
                            lemma_drawn_from_grows(s.meshes[i].vertices, s.positions, p);
                        }
                    },
                    Err(_) => {},
                }
            },
            Some(ObjToken::Face) => {
                lemma_face_well_formed(s, texts_of(line).skip(1));
            },
            _ => {},
        }
    }
}

/// The object of a well-formed state is made of triangles over its own
/// vertices, each vertex lies at a position that was read, and the box is
/// the box of the positions read.
pub proof fn lemma_finished_well_formed(s: ObjState)
    requires
        s.well_formed(),
    ensures
        s.finished().is_indexed(),
        s.finished().is_drawn_from(s.positions),
        s.finished().bounds_vertices(),
{
    let o = s.finished();
    assert forall|i: int| 0 <= i < o.meshes.len() implies {
        &&& (#[trigger] o.meshes[i]).is_indexed()
        &&& drawn_from(o.meshes[i].vertices, s.positions)
    } by {
        if i < s.meshes.len() {
            assert(o.meshes[i] == s.meshes[i]);
        }
    }
    crate::importer::lemma_object_bounds(o, s.positions);
}

/// A reader of OBJ lines.
pub struct ObjParser {
    positions: Vec<Vec3>,
    normals: Vec<Vec3>,
    tex_coords: Vec<TexCoords>,
    vertices: Vec<Vertex>,
    indices: Vec<u32>,
    meshes: Vec<ObjMesh>,
    object_name: Vec<u8>,
    mesh_name: Vec<u8>,
    material: Option<Material>,
    materials: Vec<Material>,
    aabb: AABB,
}

impl View for ObjParser {
    type V = ObjState;

    closed spec fn view(&self) -> ObjState {
        ObjState {
            positions: self.positions@,
            normals: self.normals@,
            tex_coords: self.tex_coords@,
            vertices: self.vertices@,
            indices: self.indices@,
            meshes: mesh_views(self.meshes@),
            object_name: self.object_name@,
            mesh_name: self.mesh_name@,
            material: material_view(self.material),
            materials: material_views(self.materials@),
            aabb: self.aabb,
        }
    }
}

impl ObjParser {
    /// A reader that has read nothing.
    pub fn new() -> (r: ObjParser)
        ensures
            r@ == ObjState::initial(),
            r@.well_formed(),
    {
        let r = ObjParser {
            positions: Vec::new(),
            normals: Vec::new(),
            tex_coords: Vec::new(),
            vertices: Vec::new(),
            indices: Vec::new(),
            meshes: Vec::new(),
            object_name: Vec::new(),
            mesh_name: Vec::new(),
            material: None,
            materials: Vec::new(),
            aabb: AABB::empty(),
        };
        assert(r@.meshes =~= Seq::empty());
        assert(r@.materials =~= Seq::empty());
        r
    }

    /// Closes the sub-mesh in progress under the given name.
    fn flush(&mut self, name: Vec<u8>)
        ensures
            final(self)@ == old(self)@.flushed(name@),
    {
        let mut vertices: Vec<Vertex> = Vec::new();
        let mut indices: Vec<u32> = Vec::new();
        core::mem::swap(&mut self.vertices, &mut vertices);
        core::mem::swap(&mut self.indices, &mut indices);
        if vertices.len() > 0 {
            let material = duplicate_material(&self.material);
            let ghost before = mesh_views(self.meshes@);
            let mesh = ObjMesh { name, vertices, indices, material };
            self.meshes.push(mesh);
            assert(mesh_views(self.meshes@) =~= before.push(mesh@));
        }
    }

    fn section_name(&self) -> (r: Vec<u8>)
        ensures
            r@ == self@.section_name(),
    {
        if self.mesh_name.len() == 0 {
            crate::importer::copy_bytes(&self.object_name)
        } else {
            crate::importer::copy_bytes(&self.mesh_name)
        }
    }

    fn closing_name(&self) -> (r: Vec<u8>)
        ensures
            r@ == self@.closing_name(),
    {
        if self.mesh_name.len() > 0 {
            crate::importer::copy_bytes(&self.mesh_name)
        } else if self.object_name.len() > 0 {
            crate::importer::copy_bytes(&self.object_name)
        } else {
            word_bytes("default_mesh")
        }
    }

    fn resolve_corner(&self, c: CornerRef, fallback: Normal) -> (r: Option<Vertex>)
        ensures
            match r {
                Some(v) => self@.resolves(c) && v == self@.vertex_of(c, fallback),
                None => !self@.resolves(c),
            },
    {
        let position = match resolve_index(c.position, self.positions.len()) {
            Some(i) => self.positions[i],
            None => {
                return None;
            },
        };
        let tex_coords = match c.tex_coord {
            Some(t) => match resolve_index(t, self.tex_coords.len()) {
                Some(i) => self.tex_coords[i],
                None => {
                    return None;
                },
            },
            None => TexCoords::zero(),
        };
        let normal = match c.normal {
            Some(n) => match resolve_index(n, self.normals.len()) {
                Some(i) => Normal::Given(self.normals[i]),
                None => {
                    return None;
                },
            },
            None => fallback,
        };
        Some(Vertex { position, normal, tex_coords })
    }

    #[verifier::loop_isolation(false)]
    fn face(&mut self, line: &Vec<Token>) -> (r: Result<ObjOutcome, ImportError>)
        requires
            line@.len() >= 1,
        ensures
            final(self)@ == old(self)@.after_face(texts_of(token_views(line@)).skip(1)).0,
            outcome_view(r) == old(self)@.after_face(texts_of(token_views(line@)).skip(1)).1,
    {
        let ghost words = texts_of(token_views(line@)).skip(1);
        let ghost corners_spec = Seq::new(words.len(), |i: int| corner_of(words[i]).unwrap());
        let n: usize = line.len() - 1;
        if n < 3 {
            return Err(ImportError::IncompleteData);
        }
        let mut corners: Vec<CornerRef> = Vec::new();
        let mut i: usize = 0;
        while i < n
            invariant
                n == line@.len() - 1,
                words == texts_of(token_views(line@)).skip(1),
                i <= n,
                corners@.len() == i,
                forall|k: int| 0 <= k < i ==> corner_of(#[trigger] words[k]) == Some(corners@[k]),
            decreases n - i,
        {
            assert(words[i as int] == line@[i + 1].text@);
            match parse_corner(line[i + 1].text.as_slice()) {
                Some(c) => {
                    corners.push(c);
                },
                None => {
                    assert(corner_of(words[i as int]) is None);
                    return Err(ImportError::MalformedNumber);
                },
            }
            i += 1;
        }
        assert(corners@ =~= corners_spec);
        if n > 0xffff_ffff || self.vertices.len() > 0xffff_ffff - n {
            return Err(ImportError::TooManyVertices);
        }
        let fallback = if self.normals.len() == 0 {
            let a = match resolve_index(corners[0].position, self.positions.len()) {
                Some(i) => self.positions[i],
                None => {
                    assert(!self@.resolves(corners@[0]));
                    return Err(ImportError::IndexOutOfRange);
                },
            };
            let b = match resolve_index(corners[1].position, self.positions.len()) {
                Some(i) => self.positions[i],
                None => {
                    assert(!self@.resolves(corners@[1]));
                    return Err(ImportError::IndexOutOfRange);
                },
            };
            let c = match resolve_index(corners[2].position, self.positions.len()) {
                Some(i) => self.positions[i],
                None => {
                    assert(!self@.resolves(corners@[2]));
                    return Err(ImportError::IndexOutOfRange);
                },
            };
            Normal::Facet(a, b, c)
        } else {
            Normal::Given(Vec3::zero())
        };
        assert(fallback == self@.fallback_normal(corners@));
        let mut made: Vec<Vertex> = Vec::new();
        let mut j: usize = 0;
        while j < n
            invariant
                n == corners@.len(),
                j <= n,
                made@.len() == j,
                forall|k: int| 0 <= k < j ==> self@.resolves(#[trigger] corners@[k]),
                forall|k: int| 0 <= k < j ==> made@[k] == self@.vertex_of(corners@[k], fallback),
            decreases n - j,
        {
            match self.resolve_corner(corners[j], fallback) {
                Some(v) => {
                    made.push(v);
                },
                None => {
                    assert(!self@.resolves(corners_spec[j as int]));
                    return Err(ImportError::IndexOutOfRange);
                },
            }
            j += 1;
        }
        let ghost old_state = self@;
        assert(made@ =~= Seq::new(corners@.len(), |i: int| old_state.vertex_of(corners@[i], fallback)));
        let first: u32 = self.vertices.len() as u32;
        self.vertices.append(&mut made);
        push_fan(&mut self.indices, first, n as u32);
        Ok(ObjOutcome::Done)
    }

    /// Takes in one line, given as its words.
    ///
    /// A `mtllib` line changes nothing and hands back the names of the
    /// libraries.
    pub fn feed(&mut self, line: &Vec<Token>) -> (r: Result<ObjOutcome, ImportError>)
        ensures
            final(self)@ == old(self)@.step(token_views(line@)).0,
            outcome_view(r) == old(self)@.step(token_views(line@)).1,
            old(self)@.well_formed() ==> final(self)@.well_formed(),
    {
        let ghost tv = token_views(line@);
        proof {
            if self@.well_formed() {
                lemma_step_well_formed(self@, tv);
            }
        }
        if blank(line) {
            return Ok(ObjOutcome::Done);
        }
        assert(tv[0].text == line@[0].text@);
        match ObjToken::from_word(line[0].text.as_slice()) {
            None => Ok(ObjOutcome::Unknown),
            Some(ObjToken::Object) => {
                let name = self.section_name();
                self.flush(name);
                self.object_name = copy_word_or(line, 1, "");
                assert("".spec_bytes() =~= Seq::<u8>::empty()) by {
                    lemma_empty_word();
                }
                Ok(ObjOutcome::Done)
            },
            Some(ObjToken::Group) => {
                let name = self.section_name();
                self.flush(name);
                self.mesh_name = copy_word_or(line, 1, "default_mesh");
                Ok(ObjOutcome::Done)
            },
            Some(ObjToken::Vertex) => {
                if line.len() < 4 {
                    return Err(ImportError::IncompleteData);
                }
                match read_numbers(line, 1, 3) {
                    Some(n) => {
                        let p = Vec3 { x: n[0], y: n[1], z: n[2] };
                        self.positions.push(p);
                        self.aabb.grow(p);
                        Ok(ObjOutcome::Done)
                    },
                    None => Err(ImportError::MalformedNumber),
                }
            },
            Some(ObjToken::Normal) => {
                if line.len() < 4 {
                    return Err(ImportError::IncompleteData);
                }
                match read_numbers(line, 1, 3) {
                    Some(n) => {
                        self.normals.push(Vec3 { x: n[0], y: n[1], z: n[2] });
                        Ok(ObjOutcome::Done)
                    },
                    None => Err(ImportError::MalformedNumber),
                }
            },
            Some(ObjToken::TexCoord) => {
                if line.len() < 3 {
                    return Err(ImportError::IncompleteData);
                }
                match read_numbers(line, 1, 2) {
                    Some(n) => {
                        self.tex_coords.push(TexCoords { u: n[0], v: Value::OneMinus(n[1]) });
                        Ok(ObjOutcome::Done)
                    },
                    None => Err(ImportError::MalformedNumber),
                }
            },
            Some(ObjToken::Face) => self.face(line),
            Some(ObjToken::Point) => Ok(ObjOutcome::Done),
            Some(ObjToken::Line) => Ok(ObjOutcome::Done),
            Some(ObjToken::SmoothShading) => Ok(ObjOutcome::Done),
            Some(ObjToken::MaterialLib) => {
                let mut names: Vec<Vec<u8>> = Vec::new();
                let mut i: usize = 1;
                let ghost want = texts_of(tv).skip(1);
                while i < line.len()
                    invariant
                        1 <= i <= line@.len(),
                        tv == token_views(line@),
                        want == texts_of(tv).skip(1),
                        names@.len() == i - 1,
                        forall|k: int| 0 <= k < i - 1 ==> (#[trigger] names@[k])@ == want[k],
                    decreases line@.len() - i,
                {
                    names.push(crate::importer::copy_bytes(&line[i].text));
                    i += 1;
                }
                assert(views(names@) =~= want);
                Ok(ObjOutcome::Libraries(names))
            },
            Some(ObjToken::MaterialUsage) => {
                let name = self.closing_name();
                self.flush(name);
                let wanted = copy_word_or(line, 1, "");
                assert("".spec_bytes() =~= Seq::<u8>::empty()) by {
                    lemma_empty_word();
                }
                self.material = lookup_material(&self.materials, &wanted);
                Ok(ObjOutcome::Done)
            },
        }
    }

    /// Makes the materials of a library known: each can be used by name
    /// from now on, in place of an earlier one of the same name.
    pub fn add_materials(&mut self, library: Vec<Material>)
        ensures
            final(self)@ == (ObjState {
                materials: old(self)@.materials + material_views(library@),
                ..old(self)@
            }),
            old(self)@.well_formed() ==> final(self)@.well_formed(),
    {
        let ghost before = material_views(self.materials@);
        let mut library = library;
        let ghost added = material_views(library@);
        self.materials.append(&mut library);
        assert(material_views(self.materials@) =~= before + added);
    }

    /// Ends the file: closes the sub-mesh in progress and gives the object.
    pub fn finish(self) -> (r: Object)
        ensures
            r@ == self@.finished(),
            self@.well_formed() ==> r@.is_indexed() && r@.is_drawn_from(self@.positions)
                && r@.bounds_vertices(),
    {
        proof {
            if self@.well_formed() {
                lemma_finished_well_formed(self@);
            }
        }
        let name = self.closing_name();
        let ghost st = self@;
        let mut meshes = self.meshes;
        let ghost before = mesh_views(meshes@);
        let mesh = ObjMesh {
            name,
            vertices: self.vertices,
            indices: self.indices,
            material: self.material,
        };
        meshes.push(mesh);
        assert(mesh_views(meshes@) =~= before.push(mesh@));
        Object { name: self.object_name, meshes, aabb: self.aabb }
    }
}

/// The empty word has no bytes.
pub proof fn lemma_empty_word()
    ensures
        "".spec_bytes() == Seq::<u8>::empty(),
{
    reveal_strlit("");
    vstd::string::is_ascii_spec_bytes("");
    assert("".spec_bytes() =~= Seq::<u8>::empty());
}

/// What each line of a list holds.
pub open spec fn line_views(lines: Seq<Vec<Token>>) -> Seq<Seq<TokenView>> {
    Seq::new(lines.len(), |i: int| token_views(lines[i]@))
}

/// What each library of a list holds.
pub open spec fn library_views(libraries: Seq<Vec<Material>>) -> Seq<Seq<MaterialView>> {
    Seq::new(libraries.len(), |i: int| material_views(libraries[i]@))
}

/// The names of the material libraries that the lines from line `i` on
/// name, in order.
pub open spec fn libraries_named(lines: Seq<Seq<TokenView>>, i: int) -> Seq<Seq<u8>>
    decreases lines.len() - i,
{
    if i < 0 || i >= lines.len() {
        Seq::empty()
    } else if !is_blank(lines[i]) && ObjToken::of_keyword(lines[i][0].text) == Some(
        ObjToken::MaterialLib,
    ) {
        texts_of(lines[i]).skip(1) + libraries_named(lines, i + 1)
    } else {
        libraries_named(lines, i + 1)
    }
}

/// The names of the material libraries that a file names, in the order in
/// which it names them.
pub fn material_libraries(lines: &Vec<Vec<Token>>) -> (r: Vec<Vec<u8>>)
    ensures
        views(r@) == libraries_named(line_views(lines@), 0),
{
    let ghost lv = line_views(lines@);
    let mut names: Vec<Vec<u8>> = Vec::new();
    let mut i: usize = 0;
    assert(views(names@) + libraries_named(lv, 0) =~= libraries_named(lv, 0));
    while i < lines.len()
        invariant
            i <= lines@.len(),
            lv == line_views(lines@),
            libraries_named(lv, 0) == views(names@) + libraries_named(lv, i as int),
        decreases lines@.len() - i,
    {
        let line = &lines[i];
        let ghost tv = token_views(line@);
        assert(lv[i as int] == tv);
        let ghost before = views(names@);
        if !blank(line) {
            assert(tv[0].text == line@[0].text@);
            if let Some(ObjToken::MaterialLib) = ObjToken::from_word(line[0].text.as_slice()) {
                let ghost want = texts_of(tv).skip(1);
                let mut k: usize = 1;
                while k < line.len()
                    invariant
                        1 <= k <= line@.len(),
                        tv == token_views(line@),
                        want == texts_of(tv).skip(1),
                        views(names@) == before + want.take(k - 1),
                    decreases line@.len() - k,
                {
                    let ghost so_far = views(names@);
                    let name = crate::importer::copy_bytes(&line[k].text);
                    names.push(name);
                    assert(views(names@) =~= so_far.push(want[k - 1]));
                    assert(want.take(k as int) =~= want.take(k - 1).push(want[k - 1]));
                    k += 1;
                }
                assert(want.take(k - 1) =~= want);
                assert((before + want) + libraries_named(lv, i + 1) =~= before + (want
                    + libraries_named(lv, i + 1)));
            }
        }
        i += 1;
    }
    assert(views(names@) + Seq::<Seq<u8>>::empty() =~= views(names@));
    names
}

/// The materials of the `count` libraries from library `from` on, one
/// library after the other; a library that the list does not hold gives
/// none.
pub open spec fn materials_of(libraries: Seq<Seq<MaterialView>>, from: int, count: nat) -> Seq<
    MaterialView,
>
    decreases count,
{
    if count == 0 {
        Seq::empty()
    } else if 0 <= from + count - 1 < libraries.len() {
        materials_of(libraries, from, (count - 1) as nat) + libraries[from + count - 1]
    } else {
        materials_of(libraries, from, (count - 1) as nat)
    }
}

impl ObjState {
    /// The state after the lines from line `i` on, or the failure of the
    /// first line that fails. `libraries` holds the materials of the
    /// libraries that the file names, in the order in which it names them,
    /// and `used` counts those that the lines before line `i` named: a
    /// line that names libraries makes their materials known.
    pub open spec fn run(
        self,
        lines: Seq<Seq<TokenView>>,
        i: int,
        libraries: Seq<Seq<MaterialView>>,
        used: int,
    ) -> Result<ObjState, ImportError>
        decreases lines.len() - i,
    {
        if i < 0 || i >= lines.len() {
            Ok(self)
        } else {
            match self.step(lines[i]) {
                (_, Err(e)) => Err(e),
                (next, Ok(ObjOutcomeView::Libraries(names))) => (ObjState {
                    materials: next.materials + materials_of(libraries, used, names.len()),
                    ..next
                }).run(lines, i + 1, libraries, used + names.len()),
                (next, Ok(_)) => next.run(lines, i + 1, libraries, used),
            }
        }
    }
}

/// The object of a file.
pub open spec fn object_of_lines(lines: Seq<Seq<TokenView>>, libraries: Seq<Seq<MaterialView>>)
    -> Result<ObjectView, ImportError> {
    match ObjState::initial().run(lines, 0, libraries, 0) {
        Ok(s) => Ok(s.finished()),
        Err(e) => Err(e),
    }
}

/// What the result of an import holds.
pub open spec fn object_result_view(r: Result<Object, ImportError>) -> Result<
    ObjectView,
    ImportError,
> {
    match r {
        Ok(o) => Ok(o@),
        Err(e) => Err(e),
    }
}

proof fn lemma_run_well_formed(
    s: ObjState,
    lines: Seq<Seq<TokenView>>,
    i: int,
    libraries: Seq<Seq<MaterialView>>,
    used: int,
)
    requires
        s.well_formed(),
    ensures
        s.run(lines, i, libraries, used) matches Ok(t) ==> t.well_formed(),
    decreases lines.len() - i,
{
    if 0 <= i < lines.len() {
        lemma_step_well_formed(s, lines[i]);
        match s.step(lines[i]) {
            (_, Err(e)) => {},
            (next, Ok(ObjOutcomeView::Libraries(names))) => {
                let with = ObjState {
                    materials: next.materials + materials_of(libraries, used, names.len()),
                    ..next
                };
                lemma_run_well_formed(with, lines, i + 1, libraries, used + names.len());
            },
            (next, Ok(_)) => {
                lemma_run_well_formed(next, lines, i + 1, libraries, used);
            },
        }
    }
}

/// Reads an OBJ file, given as the words of its lines. `libraries` holds
/// the materials of the libraries that the file names, in the order of
/// [`material_libraries`]; a library that could not be read is given as an
/// empty one.
pub fn load_obj(lines: &Vec<Vec<Token>>, libraries: &Vec<Vec<Material>>) -> (r: Result<
    Object,
    ImportError,
>)
    ensures
        object_result_view(r) == object_of_lines(line_views(lines@), library_views(libraries@)),
        r matches Ok(o) ==> o@.is_indexed() && o@.bounds_vertices(),
{
    let ghost lv = line_views(lines@);
    let ghost libs = library_views(libraries@);
    let mut parser = ObjParser::new();
    let mut used: usize = 0;
    let mut i: usize = 0;
    proof {
        lemma_run_well_formed(ObjState::initial(), lv, 0, libs, 0);
    }
    while i < lines.len()
        invariant
            i <= lines@.len(),
            used <= libraries@.len(),
            lv == line_views(lines@),
            libs == library_views(libraries@),
            parser@.well_formed(),
            ObjState::initial().run(lv, 0, libs, 0) == parser@.run(lv, i as int, libs, used as int),
        decreases lines@.len() - i,
    {
        assert(lv[i as int] == token_views(lines@[i as int]@));
        match parser.feed(&lines[i]) {
            Err(e) => {
                return Err(e);
            },
            Ok(ObjOutcome::Libraries(names)) => {
                let ghost before = parser@;
                let count: usize = names.len();
                let mut k: usize = 0;
                while k < count
                    invariant
                        k <= count,
                        used <= libraries@.len(),
                        libs == library_views(libraries@),
                        before.well_formed(),
                        parser@ == (ObjState {
                            materials: before.materials + materials_of(libs, used as int, k as nat),
                            ..before
                        }),
                    decreases count - k,
                {
                    if k < libraries.len() - used {
                        let library = &libraries[used + k];
                        let mut copy: Vec<Material> = Vec::new();
                        let mut m: usize = 0;
                        assert(material_views(copy@) =~= material_views(library@).take(0));
                        while m < library.len()
                            invariant
                                m <= library@.len(),
                                material_views(copy@) == material_views(library@).take(m as int),
                            decreases library@.len() - m,
                        {
                            let ghost so_far = material_views(copy@);
                            let one = library[m].duplicate();
                            copy.push(one);
                            assert(material_views(copy@) =~= so_far.push(one@));
                            m += 1;
                            assert(material_views(copy@) =~= material_views(library@).take(
                                m as int,
                            ));
                        }
                        assert(material_views(library@).take(m as int) =~= material_views(
                            library@,
                        ));
                        assert(libs[used + k] == material_views(library@));
                        parser.add_materials(copy);
                        assert(parser@.materials =~= before.materials + materials_of(
                            libs,
                            used as int,
                            (k + 1) as nat,
                        ));
                    }
                    k += 1;
                }
                assert(views(names@).len() == count);
                used = if count < libraries.len() - used {
                    used + count
                } else {
                    proof {
                        lemma_run_ignores_count(
                            parser@,
                            lv,
                            i + 1,
                            libs,
                            used + count,
                            libraries@.len() as int,
                        );
                    }
                    libraries.len()
                };
            },
            Ok(_) => {},
        }
        i += 1;
    }
    proof {
        lemma_finished_well_formed(parser@);
    }
    Ok(parser.finish())
}

/// Once all libraries were used, it does not matter how many more were
/// counted as used.
proof fn lemma_run_ignores_count(
    s: ObjState,
    lines: Seq<Seq<TokenView>>,
    i: int,
    libraries: Seq<Seq<MaterialView>>,
    a: int,
    b: int,
)
    requires
        a >= libraries.len(),
        b >= libraries.len(),
    ensures
        s.run(lines, i, libraries, a) == s.run(lines, i, libraries, b),
    decreases lines.len() - i,
{
    if 0 <= i < lines.len() {
        match s.step(lines[i]) {
            (_, Err(e)) => {},
            (next, Ok(ObjOutcomeView::Libraries(names))) => {
                lemma_materials_beyond(libraries, a, names.len());
                lemma_materials_beyond(libraries, b, names.len());
                let with = ObjState { materials: next.materials + Seq::empty(), ..next };
                lemma_run_ignores_count(
                    with,
                    lines,
                    i + 1,
                    libraries,
                    a + names.len(),
                    b + names.len(),
                );
            },
            (next, Ok(_)) => {
                lemma_run_ignores_count(next, lines, i + 1, libraries, a, b);
            },
        }
    }
}

proof fn lemma_materials_beyond(libraries: Seq<Seq<MaterialView>>, from: int, count: nat)
    requires
        from >= libraries.len(),
    ensures
        materials_of(libraries, from, count) == Seq::<MaterialView>::empty(),
    decreases count,
{
    if count > 0 {
        lemma_materials_beyond(libraries, from, (count - 1) as nat);
        assert(materials_of(libraries, from, (count - 1) as nat) =~= Seq::<
            MaterialView,
        >::empty());
    }
}

} // verus!
