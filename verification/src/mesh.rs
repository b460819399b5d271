//! Index buffers for drawing a polygon's exterior.
//!
//! The renderer draws a polygon either as a line loop over its vertices
//! or as a triangle fan from vertex 0; both take the vertex list as-is
//! plus an index pattern that depends only on the vertex count.
use vstd::prelude::*;

verus! {

/// The expected entry at position i of the line-loop index pattern:
/// pairs (k, (k+1) mod length) for each vertex k.
pub open spec fn line_index_at(length: int, i: int) -> int {
    if i % 2 == 0 {
        i / 2
    } else {
        ((i / 2) + 1) % length
    }
}

/// The expected entry at position i of the triangle-fan index pattern:
/// triples (0, k+1, (k+2) mod length) for each fan triangle k.
pub open spec fn tri_index_at(length: int, i: int) -> int {
    if i % 3 == 0 {
        0
    } else if i % 3 == 1 {
        (i / 3) + 1
    } else {
        ((i / 3) + 2) % length
    }
}

/// Indices that draw the closed outline of a polygon with `length`
/// vertices as line segments: [0, 1, 1, 2, ..., length-1, 0].
pub fn gen_line_indices(length: u16) -> (r: Vec<u16>)
    ensures
        r@.len() == 2 * length,
        forall|i: int| 0 <= i < r@.len() ==> (#[trigger] r@[i]) as int == line_index_at(
            length as int,
            i,
        ),
{
    let mut indices: Vec<u16> = Vec::new();
    let mut k: u16 = 0;
    while k < length
        invariant
            k <= length,
            indices@.len() == 2 * k,
            forall|i: int| 0 <= i < indices@.len() ==> (#[trigger] indices@[i]) as int
                == line_index_at(length as int, i),
        decreases length - k,
    {
        indices.push(k);
        indices.push((k + 1) % length);
        k += 1;
    }
    indices
}

/// Indices that draw a polygon with `length` vertices as a triangle fan
/// from vertex 0: [0, 1, 2, 0, 2, 3, ...]. Fewer than two vertices give
/// no triangle.
pub fn gen_triangulation_indices(length: u16) -> (r: Vec<u16>)
    requires
        length >= 1,
    ensures
        r@.len() == if length >= 2 {
            3 * (length - 2)
        } else {
            0
        },
        forall|i: int| 0 <= i < r@.len() ==> (#[trigger] r@[i]) as int == tri_index_at(
            length as int,
            i,
        ),
{
    let mut indices: Vec<u16> = Vec::new();
    let mut t: u16 = 1;
    while t < length - 1
        invariant
            length >= 1,
            1 <= t,
            t <= length - 1 || t == 1,
            indices@.len() == 3 * (t - 1),
            forall|i: int| 0 <= i < indices@.len() ==> (#[trigger] indices@[i]) as int
                == tri_index_at(length as int, i),
        decreases length - 1 - t,
    {
        indices.push(0);
        indices.push(t);
        indices.push((t + 1) % length);
        t += 1;
    }
    indices
}

/// The entry at position t of the fixed per-quad index pattern
/// [0, 1, 2, 3, 2, 0] that splits a shadow quad into two triangles.
pub open spec fn quad_pat(t: int) -> int {
    if t == 0 {
        0
    } else if t == 1 {
        1
    } else if t == 2 {
        2
    } else if t == 3 {
        3
    } else if t == 4 {
        2
    } else {
        0
    }
}

/// The expected entry at position i of the index buffer for a batch of
/// shadow quads: the fixed pattern shifted by four per quad.
pub open spec fn shadow_index_at(i: int) -> int {
    4 * (i / 6) + quad_pat(i % 6)
}

/// The index buffer that draws `count` shadow quads, each stored as four
/// consecutive vertices, as two triangles per quad with the fixed pattern
/// [0, 1, 2, 3, 2, 0]. The bound on `count` keeps every index a u16.
pub fn gen_shadow_indices(count: usize) -> (r: Vec<u16>)
    requires
        count <= 0x3FFF,
    ensures
        r@.len() == 6 * count,
        forall|i: int| 0 <= i < r@.len() ==> (#[trigger] r@[i]) as int == shadow_index_at(i),
{
    let mut indices: Vec<u16> = Vec::new();
    let mut s: usize = 0;
    while s < count
        invariant
            count <= 0x3FFF,
            s <= count,
            indices@.len() == 6 * s,
            forall|i: int| 0 <= i < indices@.len() ==> (#[trigger] indices@[i]) as int
                == shadow_index_at(i),
        decreases count - s,
    {
        let base: u16 = (4 * s) as u16;
        indices.push(base);
        indices.push(base + 1);
        indices.push(base + 2);
        indices.push(base + 3);
        indices.push(base + 2);
        indices.push(base);
        proof {
            assert forall|i: int| 6 * s <= i < 6 * s + 6 implies shadow_index_at(i) == 4 * (
            s as int) + quad_pat(i - 6 * (s as int)) by {
                vstd::arithmetic::div_mod::lemma_fundamental_div_mod_converse(
                    i,
                    6,
                    s as int,
                    i - 6 * (s as int),
                );
            }
        }
        s += 1;
    }
    indices
}

} // verus!
