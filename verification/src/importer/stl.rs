//! STL, binary and text.
use vstd::prelude::*;
use vstd::string::StringSliceAdditionalSpecFns;
use crate::aabb::AABB;
use crate::importer::{
    word_bytes, ImportError, Material, MaterialView, ObjMesh, ObjMeshView, Object, ObjectView,
};
use crate::mesh::{positions_of, Normal, TexCoords, Vertex};
use crate::scalar::{Scalar, Vec3};
use crate::text::{contains, numbers_at, occurs_in, read_numbers, token_views, Token, TokenView};

verus! {

/// The bytes before the triangle count of a binary file.
pub const STL_HEADER_SIZE: usize = 80;

/// The bytes of one triangle of a binary file.
pub const STL_TRIANGLE_SIZE: usize = 50;

/// The bytes at the start of a file that decide whether it is text.
pub const STL_SNIFF_SIZE: usize = 512;

/// The unsigned number that the four bytes from `at` on write, lowest byte
/// first.
pub open spec fn le_u32(s: Seq<u8>, at: int) -> u32 {
    (s[at] + 0x100 * s[at + 1] + 0x1_0000 * s[at + 2] + 0x100_0000 * s[at + 3]) as u32
}

/// The unsigned number that the two bytes from `at` on write, lowest byte
/// first.
pub open spec fn le_u16(s: Seq<u8>, at: int) -> u16 {
    (s[at] + 0x100 * s[at + 1]) as u16
}

/// Reads four bytes as an unsigned number, lowest byte first.
pub fn read_u32(bytes: &[u8], at: usize) -> (r: u32)
    requires
        at + 4 <= bytes@.len(),
    ensures
        r == le_u32(bytes@, at as int),
{
    let b0: u32 = bytes[at] as u32;
    let b1: u32 = bytes[at + 1] as u32;
    let b2: u32 = bytes[at + 2] as u32;
    let b3: u32 = bytes[at + 3] as u32;
    b0 + 0x100 * b1 + 0x1_0000 * b2 + 0x100_0000 * b3
}

/// Reads two bytes as an unsigned number, lowest byte first.
pub fn read_u16(bytes: &[u8], at: usize) -> (r: u16)
    requires
        at + 2 <= bytes@.len(),
    ensures
        r == le_u16(bytes@, at as int),
{
    let b0: u16 = bytes[at] as u16;
    let b1: u16 = bytes[at + 1] as u16;
    b0 + 0x100 * b1
}

/// The three binary32 numbers that the twelve bytes from `at` on hold.
pub open spec fn vec3_at(s: Seq<u8>, at: int) -> Vec3 {
    Vec3 {
        x: Scalar { bits: le_u32(s, at) },
        y: Scalar { bits: le_u32(s, at + 4) },
        z: Scalar { bits: le_u32(s, at + 8) },
    }
}

fn read_vec3(bytes: &[u8], at: usize) -> (r: Vec3)
    requires
        at + 12 <= bytes@.len(),
    ensures
        r == vec3_at(bytes@, at as int),
{
    let len: usize = bytes.len();
    assert(at + 12 <= len);
    Vec3 {
        x: Scalar { bits: read_u32(bytes, at) },
        y: Scalar { bits: read_u32(bytes, at + 4) },
        z: Scalar { bits: read_u32(bytes, at + 8) },
    }
}

/// One triangle of an STL file.
#[derive(Clone, Copy, Debug)]
pub struct STLTriangle {
    pub normal: Vec3,
    pub verts: [Vec3; 3],
    pub attribute_byte_count: u16,
}

/// The place of triangle `t` in a binary file.
pub open spec fn record_start(t: int) -> int {
    STL_HEADER_SIZE + 4 + STL_TRIANGLE_SIZE * t
}

/// Triangle `t` of a binary file: a normal, three corners and a count
/// that is not used.
pub open spec fn triangle_at(s: Seq<u8>, t: int) -> STLTriangle {
    STLTriangle {
        normal: vec3_at(s, record_start(t)),
        verts: [
            vec3_at(s, record_start(t) + 12),
            vec3_at(s, record_start(t) + 24),
            vec3_at(s, record_start(t) + 36),
        ],
        attribute_byte_count: le_u16(s, record_start(t) + 48),
    }
}

/// The number of triangles that a binary file declares: the four bytes
/// after the header, or 0 where the file ends before them.
pub open spec fn declared_triangles(s: Seq<u8>) -> int {
    if s.len() >= STL_HEADER_SIZE + 4 {
        le_u32(s, STL_HEADER_SIZE as int) as int
    } else {
        0
    }
}

/// The number of triangles that a binary file gives: as many as it
/// declares, or as many as it holds in full where it ends early.
pub open spec fn triangle_count(s: Seq<u8>) -> int {
    if s.len() >= STL_HEADER_SIZE + 4 {
        let held = (s.len() - (STL_HEADER_SIZE + 4)) / (STL_TRIANGLE_SIZE as int);
        if declared_triangles(s) <= held {
            declared_triangles(s)
        } else {
            held
        }
    } else {
        0
    }
}

/// Vertex `k` of a list of triangles: corner `k % 3` of triangle `k / 3`,
/// with the triangle's normal.
pub open spec fn triangle_vertex(triangles: Seq<STLTriangle>, k: int) -> Vertex {
    Vertex {
        position: triangles[k / 3].verts[k % 3],
        normal: Normal::Given(triangles[k / 3].normal),
        tex_coords: TexCoords::spec_zero(),
    }
}

/// The vertices of a list of triangles: three for each, in order.
pub open spec fn triangle_vertices(triangles: Seq<STLTriangle>) -> Seq<Vertex> {
    Seq::new(3 * triangles.len(), |k: int| triangle_vertex(triangles, k))
}

/// The indices `0, 1, 2, ...` up to `count`.
pub open spec fn sequential(count: nat) -> Seq<u32> {
    Seq::new(count, |k: int| k as u32)
}

/// The object that a list of triangles gives: one sub-mesh named
/// `default_mesh` with the default material, three vertices and three
/// indices in sequence for each triangle, in an object named
/// `default_object` with the box of all vertices.
pub open spec fn object_of(triangles: Seq<STLTriangle>) -> ObjectView {
    ObjectView {
        name: "default_object".spec_bytes(),
        meshes: seq![
            ObjMeshView {
                name: "default_mesh".spec_bytes(),
                vertices: triangle_vertices(triangles),
                indices: sequential(3 * triangles.len()),
                material: Some(MaterialView::default_material()),
            },
        ],
        aabb: AABB::of_points(positions_of(triangle_vertices(triangles))),
    }
}

/// The triangles of a binary file.
pub open spec fn binary_triangles(s: Seq<u8>) -> Seq<STLTriangle> {
    Seq::new(triangle_count(s) as nat, |t: int| triangle_at(s, t))
}

/// A reader of the triangles of a binary file.
pub struct TrianglesIter {
    triangles_to_read: usize,
    triangles_read: usize,
}

impl TrianglesIter {
    /// The number of triangles that the reader was made for.
    pub closed spec fn to_read(&self) -> int {
        self.triangles_to_read as int
    }

    /// The number of triangles that the reader has given.
    pub closed spec fn read(&self) -> int {
        self.triangles_read as int
    }

    /// A reader of `triangles_to_read` triangles.
    pub fn new(triangles_to_read: usize) -> (r: TrianglesIter)
        ensures
            r.to_read() == triangles_to_read,
            r.read() == 0,
    {
        TrianglesIter { triangles_to_read, triangles_read: 0 }
    }

    /// The next triangle of the file: none once as many were given as the
    /// reader was made for, or where the file ends before the triangle
    /// does.
    pub fn next(&mut self, bytes: &[u8]) -> (r: Option<STLTriangle>)
        ensures
            final(self).to_read() == old(self).to_read(),
            match r {
                Some(t) => {
                    &&& old(self).read() < old(self).to_read()
                    &&& record_start(old(self).read() + 1) <= bytes@.len()
                    &&& t == triangle_at(bytes@, old(self).read())
                    &&& final(self).read() == old(self).read() + 1
                },
                None => {
                    &&& old(self).read() >= old(self).to_read() || record_start(
                        old(self).read() + 1,
                    ) > bytes@.len()
                    &&& final(self).read() == old(self).read()
                },
            },
    {
        if self.triangles_read >= self.triangles_to_read {
            return None;
        }
        let len: usize = bytes.len();
        if len < STL_HEADER_SIZE + 4 + STL_TRIANGLE_SIZE {
            return None;
        }
        if self.triangles_read > (len - (STL_HEADER_SIZE + 4 + STL_TRIANGLE_SIZE))
            / STL_TRIANGLE_SIZE {
            return None;
        }
        let at: usize = STL_HEADER_SIZE + 4 + STL_TRIANGLE_SIZE * self.triangles_read;
        let t = STLTriangle {
            normal: read_vec3(bytes, at),
            verts: [
                read_vec3(bytes, at + 12),
                read_vec3(bytes, at + 24),
                read_vec3(bytes, at + 36),
            ],
            attribute_byte_count: read_u16(bytes, at + 48),
        };
        self.triangles_read += 1;
        Some(t)
    }
}

/// Whether no byte is above 127.
pub open spec fn all_ascii(s: Seq<u8>) -> bool {
    forall|i: int| 0 <= i < s.len() ==> (#[trigger] s[i]) <= 127
}

/// Whether no byte of `buf` is above 127.
pub fn is_ascii(buf: &[u8]) -> (r: bool)
    ensures
        r == all_ascii(buf@),
{
    let mut i: usize = 0;
    while i < buf.len()
        invariant
            i <= buf@.len(),
            forall|k: int| 0 <= k < i ==> (#[trigger] buf@[k]) <= 127,
        decreases buf@.len() - i,
    {
        if buf[i] > 127 {
            return false;
        }
        i += 1;
    }
    true
}

/// The start of a file that decides whether it is text: its first 512
/// bytes, or all of a shorter file.
pub open spec fn sniffed(s: Seq<u8>) -> Seq<u8> {
    if s.len() > STL_SNIFF_SIZE {
        s.take(STL_SNIFF_SIZE as int)
    } else {
        s
    }
}

/// Whether an STL file is text: no byte of its start is above 127.
pub fn is_text(bytes: &[u8]) -> (r: bool)
    ensures
        r == all_ascii(sniffed(bytes@)),
{
    if bytes.len() > STL_SNIFF_SIZE {
        is_ascii(vstd::slice::slice_subrange(bytes, 0, STL_SNIFF_SIZE))
    } else {
        is_ascii(bytes)
    }
}

/// The object that a list of triangles gives, unless it would hold more
/// vertices than a 32-bit index can address.
pub open spec fn object_or_error(triangles: Seq<STLTriangle>) -> Result<ObjectView, ImportError> {
    if 3 * triangles.len() > u32::MAX {
        Err(ImportError::TooManyVertices)
    } else {
        Ok(object_of(triangles))
    }
}

/// What the result of an import holds.
pub open spec fn object_view(r: Result<Object, ImportError>) -> Result<ObjectView, ImportError> {
    match r {
        Ok(o) => Ok(o@),
        Err(e) => Err(e),
    }
}

/// Builds the object of a list of triangles.
pub fn build_object(triangles: &Vec<STLTriangle>) -> (r: Result<Object, ImportError>)
    ensures
        object_view(r) == object_or_error(triangles@),
        r matches Ok(o) ==> o@.is_indexed() && o@.bounds_vertices(),
{
    let n: usize = triangles.len();
    if n > 0x5555_5555 {
        return Err(ImportError::TooManyVertices);
    }
    let mut vertices: Vec<Vertex> = Vec::new();
    let mut indices: Vec<u32> = Vec::new();
    let mut aabb = AABB::empty();
    let mut t: usize = 0;
    let ghost want = triangle_vertices(triangles@);
    assert(positions_of(vertices@) =~= Seq::<Vec3>::empty());
    while t < n
        invariant
            n == triangles@.len(),
            n <= 0x5555_5555,
            t <= n,
            want == triangle_vertices(triangles@),
            vertices@ == want.take(3 * t),
            indices@ == sequential((3 * t) as nat),
            aabb == AABB::of_points(positions_of(vertices@)),
        decreases n - t,
    {
        let tri = triangles[t];
        let base: u32 = (3 * t) as u32;
        let mut c: usize = 0;
        while c < 3
            invariant
                t < n,
                n == triangles@.len(),
                n <= 0x5555_5555,
                c <= 3,
                tri == triangles@[t as int],
                want == triangle_vertices(triangles@),
                vertices@ == want.take(3 * t + c),
                aabb == AABB::of_points(positions_of(vertices@)),
            decreases 3 - c,
        {
            let v = Vertex {
                position: tri.verts[c],
                normal: Normal::Given(tri.normal),
                tex_coords: TexCoords::zero(),
            };
            proof {
                let k = 3 * t + c;
                assert(k / 3 == t && k % 3 == c);
                assert(want[k] == v);
                AABB::lemma_of_points_push(positions_of(vertices@), v.position);
                assert(positions_of(vertices@.push(v)) =~= positions_of(vertices@).push(
                    v.position,
                ));
                assert(want.take(k + 1) =~= want.take(k).push(v));
            }
            vertices.push(v);
            aabb.grow(v.position);
            c += 1;
        }
        indices.push(base);
        indices.push(base + 1);
        indices.push(base + 2);
        assert(indices@ =~= sequential((3 * (t + 1)) as nat));
        t += 1;
    }
    assert(want.take(3 * n) =~= want);
    let mesh = ObjMesh {
        name: word_bytes("default_mesh"),
        vertices,
        indices,
        material: Some(Material::default()),
    };
    let mut meshes: Vec<ObjMesh> = Vec::new();
    meshes.push(mesh);
    let object = Object { name: word_bytes("default_object"), meshes, aabb };
    assert(object@.meshes =~= object_of(triangles@).meshes);
    proof {
        let vs = object@.meshes[0].vertices;
        assert forall|i: int| 0 <= i < vs.len() implies positions_of(vs).contains(
            (#[trigger] vs[i]).position,
        ) by {
            assert(positions_of(vs)[i] == vs[i].position);
        }
        crate::importer::lemma_object_bounds(object@, positions_of(vs));
    }
    Ok(object)
}

/// Reads a binary STL file: 80 bytes that are passed over, the number of
/// triangles, and 50 bytes for each triangle. A file that ends early gives
/// the triangles that it holds in full.
pub fn parse_binary_stl(bytes: &[u8]) -> (r: Result<Object, ImportError>)
    ensures
        object_view(r) == object_or_error(binary_triangles(bytes@)),
        r matches Ok(o) ==> o@.is_indexed() && o@.bounds_vertices(),
{
    let mut triangles: Vec<STLTriangle> = Vec::new();
    if bytes.len() >= STL_HEADER_SIZE + 4 {
        let declared: u32 = read_u32(bytes, STL_HEADER_SIZE);
        let mut iter = TrianglesIter::new(declared as usize);
        loop
            invariant
                bytes@.len() >= STL_HEADER_SIZE + 4,
                iter.to_read() == declared_triangles(bytes@),
                0 <= iter.read() <= triangle_count(bytes@),
                triangles@ == Seq::new(iter.read() as nat, |t: int| triangle_at(bytes@, t)),
            ensures
                triangles@ == binary_triangles(bytes@),
            decreases triangle_count(bytes@) - iter.read(),
        {
            let ghost before = triangles@;
            let ghost done = iter.read();
            match iter.next(bytes) {
                Some(t) => {
                    triangles.push(t);
                    assert(triangles@ =~= Seq::new(
                        (done + 1) as nat,
                        |t: int| triangle_at(bytes@, t),
                    ));
                },
                None => {
                    assert(done == triangle_count(bytes@));
                    break ;
                },
            }
        }
    } else {
        assert(triangles@ =~= binary_triangles(bytes@));
    }
    build_object(&triangles)
}

/// A binary file that holds as many triangles as it declares, and nothing
/// after them, gives that many triangles: three vertices and three indices
/// in sequence for each, the vertices of a triangle sharing the triangle's
/// normal.
pub proof fn lemma_binary_complete(s: Seq<u8>)
    requires
        s.len() == STL_HEADER_SIZE + 4 + STL_TRIANGLE_SIZE * declared_triangles(s),
        3 * declared_triangles(s) <= u32::MAX,
    ensures
        binary_triangles(s).len() == declared_triangles(s),
        object_or_error(binary_triangles(s)) matches Ok(o) && {
            &&& o.meshes.len() == 1
            &&& o.meshes[0].vertices.len() == 3 * declared_triangles(s)
            &&& o.meshes[0].indices == sequential((3 * declared_triangles(s)) as nat)
            &&& forall|t: int, c: int|
                0 <= t < declared_triangles(s) && 0 <= c < 3 ==> {
                    &&& (#[trigger] o.meshes[0].vertices[3 * t + c]).normal == Normal::Given(
                        triangle_at(s, t).normal,
                    )
                    &&& o.meshes[0].vertices[3 * t + c].position == triangle_at(s, t).verts[c]
                }
        },
{
    let n = declared_triangles(s);
    assert(triangle_count(s) == n);
    let o = object_of(binary_triangles(s));
    assert forall|t: int, c: int| 0 <= t < n && 0 <= c < 3 implies {
        &&& (#[trigger] o.meshes[0].vertices[3 * t + c]).normal == Normal::Given(
            triangle_at(s, t).normal,
        )
        &&& o.meshes[0].vertices[3 * t + c].position == triangle_at(s, t).verts[c]
    } by {
        assert((3 * t + c) / 3 == t && (3 * t + c) % 3 == c);
    }
}

/// What each line of a list holds.
pub open spec fn line_views(lines: Seq<Vec<Token>>) -> Seq<Seq<TokenView>> {
    Seq::new(lines.len(), |i: int| token_views(lines[i]@))
}

/// Whether `word` occurs in one of the words of a line.
pub open spec fn line_has(line: Seq<TokenView>, word: Seq<u8>) -> bool {
    exists|i: int| 0 <= i < line.len() && occurs_in((#[trigger] line[i]).text, word)
}

/// Whether `word` occurs in one of the words of a line.
pub fn line_contains(line: &Vec<Token>, word: &str) -> (r: bool)
    ensures
        r == line_has(token_views(line@), word.spec_bytes()),
{
    let ghost tv = token_views(line@);
    let mut i: usize = 0;
    while i < line.len()
        invariant
            i <= line@.len(),
            tv == token_views(line@),
            forall|k: int| 0 <= k < i ==> !occurs_in((#[trigger] tv[k]).text, word.spec_bytes()),
        decreases line@.len() - i,
    {
        assert(tv[i as int].text == line@[i as int].text@);
        if contains(line[i].text.as_slice(), word.as_bytes()) {
            return true;
        }
        i += 1;
    }
    false
}

/// The three numbers of a line after its first `skip` words.
pub open spec fn numbers_after(line: Seq<TokenView>, skip: int) -> Result<Vec3, ImportError> {
    if line.len() < skip + 3 {
        Err(ImportError::IncompleteData)
    } else {
        match numbers_at(line, skip, 3) {
            Some(n) => Ok(Vec3 { x: n[0], y: n[1], z: n[2] }),
            None => Err(ImportError::MalformedNumber),
        }
    }
}

fn read_numbers_after(line: &Vec<Token>, skip: usize) -> (r: Result<Vec3, ImportError>)
    requires
        skip <= 2,
    ensures
        r == numbers_after(token_views(line@), skip as int),
{
    if line.len() < skip + 3 {
        return Err(ImportError::IncompleteData);
    }
    match read_numbers(line, skip, 3) {
        Some(n) => Ok(Vec3 { x: n[0], y: n[1], z: n[2] }),
        None => Err(ImportError::MalformedNumber),
    }
}

/// What a reader of the lines of a text STL file holds: the normal and the
/// corners of the facet in progress, and the triangles that are complete.
pub struct FacetState {
    pub normal: Vec3,
    pub corners: Seq<Vec3>,
    pub triangles: Seq<STLTriangle>,
}

impl FacetState {
    /// The state before the first facet.
    pub open spec fn initial() -> FacetState {
        FacetState { normal: Vec3::spec_zero(), corners: Seq::empty(), triangles: Seq::empty() }
    }

    /// The state after a line. A line that holds `normal` gives the facet's
    /// normal after two words; one that holds `vertex` gives a corner after
    /// one word; one that holds `endfacet` completes the facet, which takes
    /// its first three corners and has to have as many.
    pub open spec fn step(self, line: Seq<TokenView>) -> Result<FacetState, ImportError> {
        if line_has(line, "normal".spec_bytes()) {
            match numbers_after(line, 2) {
                Ok(n) => Ok(FacetState { normal: n, ..self }),
                Err(e) => Err(e),
            }
        } else if line_has(line, "vertex".spec_bytes()) {
            match numbers_after(line, 1) {
                Ok(p) => Ok(FacetState { corners: self.corners.push(p), ..self }),
                Err(e) => Err(e),
            }
        } else if line_has(line, "endfacet".spec_bytes()) {
            if self.corners.len() < 3 {
                Err(ImportError::IncompleteData)
            } else {
                Ok(
                    FacetState {
                        normal: Vec3::spec_zero(),
                        corners: Seq::empty(),
                        triangles: self.triangles.push(
                            STLTriangle {
                                normal: self.normal,
                                verts: [self.corners[0], self.corners[1], self.corners[2]],
                                attribute_byte_count: 0,
                            },
                        ),
                    },
                )
            }
        } else {
            Ok(self)
        }
    }

    /// The state after the lines from line `i` on, or the failure of the
    /// first line that fails.
    pub open spec fn run(self, lines: Seq<Seq<TokenView>>, i: int) -> Result<
        FacetState,
        ImportError,
    >
        decreases lines.len() - i,
    {
        if i < 0 || i >= lines.len() {
            Ok(self)
        } else {
            match self.step(lines[i]) {
                Ok(next) => next.run(lines, i + 1),
                Err(e) => Err(e),
            }
        }
    }
}

/// The object of a text STL file: that of the triangles that its lines
/// after the first complete. A facet that the file does not end is left
/// out.
pub open spec fn ascii_object(lines: Seq<Seq<TokenView>>) -> Result<ObjectView, ImportError> {
    match FacetState::initial().run(lines, 1) {
        Ok(st) => object_or_error(st.triangles),
        Err(e) => Err(e),
    }
}

/// Reads a text STL file, given as the words of its lines.
pub fn parse_ascii_stl(lines: &Vec<Vec<Token>>) -> (r: Result<Object, ImportError>)
    ensures
        object_view(r) == ascii_object(line_views(lines@)),
        r matches Ok(o) ==> o@.is_indexed() && o@.bounds_vertices(),
{
    let ghost lv = line_views(lines@);
    let mut normal = Vec3::zero();
    let mut corners: Vec<Vec3> = Vec::new();
    let mut triangles: Vec<STLTriangle> = Vec::new();
    let mut i: usize = 1;
    let ghost st = FacetState::initial();
    assert(FacetState { normal, corners: corners@, triangles: triangles@ } == st);
    if lines.len() >= 1 {
        while i < lines.len()
            invariant
                1 <= i <= lines@.len(),
                lv == line_views(lines@),
                FacetState::initial().run(lv, 1) == (FacetState {
                    normal,
                    corners: corners@,
                    triangles: triangles@,
                }).run(lv, i as int),
            decreases lines@.len() - i,
        {
            let line = &lines[i];
            let ghost cur = FacetState { normal, corners: corners@, triangles: triangles@ };
            assert(lv[i as int] == token_views(line@));
            if line_contains(line, "normal") {
                match read_numbers_after(line, 2) {
                    Ok(n) => {
                        normal = n;
                    },
                    Err(e) => {
                        return Err(e);
                    },
                }
            } else if line_contains(line, "vertex") {
                match read_numbers_after(line, 1) {
                    Ok(p) => {
                        corners.push(p);
                    },
                    Err(e) => {
                        return Err(e);
                    },
                }
            } else if line_contains(line, "endfacet") {
                if corners.len() < 3 {
                    return Err(ImportError::IncompleteData);
                }
                triangles.push(
                    STLTriangle {
                        normal,
                        verts: [corners[0], corners[1], corners[2]],
                        attribute_byte_count: 0,
                    },
                );
                normal = Vec3::zero();
                corners = Vec::new();
            }
            i += 1;
        }
    }
    build_object(&triangles)
}

/// Reads an STL file. The file is text where [`is_text`] says so, and is
/// then read from `lines`, the words of its lines; else it is binary and is
/// read from `bytes`.
pub fn load_stl(bytes: &[u8], lines: &Vec<Vec<Token>>) -> (r: Result<Object, ImportError>)
    ensures
        object_view(r) == if all_ascii(sniffed(bytes@)) {
            ascii_object(line_views(lines@))
        } else {
            object_or_error(binary_triangles(bytes@))
        },
        r matches Ok(o) ==> o@.is_indexed() && o@.bounds_vertices(),
{
    if is_text(bytes) {
        parse_ascii_stl(lines)
    } else {
        parse_binary_stl(bytes)
    }
}

} // verus!
