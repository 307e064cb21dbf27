//! Vertices and triangle fans.
use vstd::prelude::*;
use crate::scalar::{Scalar, Value, Vec3};

verus! {

/// The normal of a vertex.
///
/// A normal that a file gives is held as it was read. One that has to be
/// computed is held as the triangle it is computed from: the computation is
/// floating-point arithmetic and is left to the caller.
#[derive(Clone, Copy, Debug, PartialEq, Eq, Structural)]
pub enum Normal {
    /// The vector itself.
    Given(Vec3),
    /// The unit vector along `(b - a) x (c - a)` for the corners `a`, `b`,
    /// `c` held, in this order.
    Facet(Vec3, Vec3, Vec3),
}

/// A texture coordinate. `v` may be held as one minus what the file gave.
#[derive(Clone, Copy, Debug, PartialEq, Eq, Structural)]
pub struct TexCoords {
    pub u: Scalar,
    pub v: Value,
}

impl TexCoords {
    pub open spec fn spec_zero() -> TexCoords {
        TexCoords { u: Scalar::spec_zero(), v: Value::Plain(Scalar::spec_zero()) }
    }

    /// The coordinate `(0, 0)`.
    #[verifier::when_used_as_spec(spec_zero)]
    pub fn zero() -> (r: TexCoords)
        ensures
            r == TexCoords::spec_zero(),
    {
        TexCoords { u: Scalar::zero(), v: Value::Plain(Scalar::zero()) }
    }
}

/// One corner of a triangle. A position that several corners share is held
/// once per corner.
#[derive(Clone, Copy, Debug, PartialEq, Eq, Structural)]
pub struct Vertex {
    pub position: Vec3,
    pub normal: Normal,
    pub tex_coords: TexCoords,
}

impl Vertex {
    /// The vertex with the given attributes.
    pub fn new(position: Vec3, normal: Normal, tex_coords: TexCoords) -> (r: Vertex)
        ensures
            r == (Vertex { position, normal, tex_coords }),
    {
        Vertex { position, normal, tex_coords }
    }
}

/// The positions of a list of vertices, in order.
pub open spec fn positions_of(vertices: Seq<Vertex>) -> Seq<Vec3> {
    Seq::new(vertices.len(), |i: int| vertices[i].position)
}

/// Whether the position of each vertex is one of the points of `pool`.
pub open spec fn drawn_from(vertices: Seq<Vertex>, pool: Seq<Vec3>) -> bool {
    forall|i: int| 0 <= i < vertices.len() ==> pool.contains((#[trigger] vertices[i]).position)
}

/// The index list of the triangle fan over `corners` consecutive vertices of
/// which `first` is the first: triangle `i` is `first`, `first + i + 1`,
/// `first + i + 2`.
pub open spec fn fan(first: int, corners: int) -> Seq<u32> {
    Seq::new(
        (3 * (corners - 2)) as nat,
        |k: int|
            if k % 3 == 0 {
                first as u32
            } else {
                (first + k / 3 + k % 3) as u32
            },
    )
}

/// A polygon of `corners` corners gives `corners - 2` triangles, each
/// rooted at the polygon's first corner: triangle `i` joins the corners 0,
/// `i + 1` and `i + 2`.
pub proof fn lemma_fan_triangles(first: int, corners: int)
    requires
        corners >= 3,
        0 <= first,
        first + corners <= 0x1_0000_0000,
    ensures
        fan(first, corners).len() == 3 * (corners - 2),
        forall|i: int|
            0 <= i < corners - 2 ==> {
                &&& (#[trigger] fan(first, corners)[3 * i]) == first
                &&& fan(first, corners)[3 * i + 1] == first + i + 1
                &&& fan(first, corners)[3 * i + 2] == first + i + 2
            },
{
    assert forall|i: int| 0 <= i < corners - 2 implies {
        &&& (#[trigger] fan(first, corners)[3 * i]) == first
        &&& fan(first, corners)[3 * i + 1] == first + i + 1
        &&& fan(first, corners)[3 * i + 2] == first + i + 2
    } by {
        assert((3 * i) % 3 == 0 && (3 * i) / 3 == i);
        assert((3 * i + 1) % 3 == 1 && (3 * i + 1) / 3 == i);
        assert((3 * i + 2) % 3 == 2 && (3 * i + 2) / 3 == i);
    }
}

/// Every index of a fan points at one of its own vertices.
pub proof fn lemma_fan_in_range(first: int, corners: int)
    requires
        corners >= 3,
        0 <= first,
        first + corners <= 0x1_0000_0000,
    ensures
        forall|k: int|
            0 <= k < fan(first, corners).len() ==> first <= (#[trigger] fan(first, corners)[k])
                < first + corners,
{
    assert forall|k: int| 0 <= k < fan(first, corners).len() implies first <= (#[trigger] fan(
        first,
        corners,
    )[k]) < first + corners by {
        assert(0 <= k / 3 < corners - 2);
        assert(0 <= k % 3 < 3);
    }
}

/// Appends the triangle fan over the `corners` vertices that start at
/// `first`.
pub fn push_fan(indices: &mut Vec<u32>, first: u32, corners: u32)
    requires
        corners >= 3,
        first + corners <= 0x1_0000_0000,
    ensures
        final(indices)@ == old(indices)@ + fan(first as int, corners as int),
{
    let ghost before = indices@;
    let mut i: u32 = 0;
    assert(indices@ =~= before + fan(first as int, corners as int).take(0));
    while i < corners - 2
        invariant
            corners >= 3,
            first + corners <= 0x1_0000_0000,
            i <= corners - 2,
            indices@ == before + fan(first as int, corners as int).take(3 * i),
        decreases corners - 2 - i,
    {
        let ghost f = fan(first as int, corners as int);
        proof {
            lemma_fan_triangles(first as int, corners as int);
        }
        indices.push(first);
        indices.push(first + i + 1);
        indices.push(first + i + 2);
        assert(indices@ =~= before + f.take(3 * (i + 1))) by {
            assert(f[3 * i] == first);
            assert(f[3 * i + 1] == first + i + 1);
            assert(f[3 * i + 2] == first + i + 2);
        }
        i += 1;
    }
    assert(fan(first as int, corners as int).take(3 * i) =~= fan(first as int, corners as int));
}

} // verus!
