//! Meshes: vertex buffers with triangle index buffers.

use vstd::prelude::*;
use crate::util::{triangulate, triangle_fan};

verus! {

/// A mesh over vertices of type `V`: each index names a vertex of the buffer.
pub struct Mesh<V> {
    pub vertex_buffer: Vec<V>,
    pub index_buffer: Vec<u32>,
    pub texture_id: Option<usize>,
}

/// Every index names a vertex of the buffer.
pub open spec fn indices_in_range(indices: Seq<u32>, num_vertices: int) -> bool {
    forall|i: int| 0 <= i < indices.len() ==> #[trigger] indices[i] < num_vertices
}

impl<V: Copy> Mesh<V> {
    pub fn new() -> (r: Self)
        ensures
            r.vertex_buffer@ == Seq::<V>::empty(),
            r.index_buffer@ == Seq::<u32>::empty(),
            r.texture_id is None,
    {
        Self { vertex_buffer: Vec::new(), index_buffer: Vec::new(), texture_id: None }
    }

    /// Appends a convex polygon, split into a triangle fan whose indices are
    /// moved past the vertices already held. All indices must fit in `u32`.
    pub fn add_vertices(&mut self, vertices: &[V], clockwise: bool)
        requires
            old(self).vertex_buffer@.len() + vertices@.len() <= u32::MAX,
        ensures
            final(self).vertex_buffer@ == old(self).vertex_buffer@ + vertices@,
            final(self).index_buffer@ == old(self).index_buffer@ + triangle_fan(vertices@.len() as int, clockwise).map_values(
                |i: u32| (i + old(self).vertex_buffer@.len()) as u32,
            ),
            final(self).texture_id == old(self).texture_id,
            indices_in_range(old(self).index_buffer@, old(self).vertex_buffer@.len() as int) ==> indices_in_range(
                final(self).index_buffer@,
                final(self).vertex_buffer@.len() as int,
            ),
    {
        let triangles = triangulate(vertices, clockwise);
        let index_offset = self.vertex_buffer.len();
        let ghost old_vertices = self.vertex_buffer@;
        let ghost old_indices = self.index_buffer@;
        let mut i: usize = 0;
        while i < vertices.len()
            invariant
                i <= vertices@.len(),
                self.vertex_buffer@ == old_vertices + vertices@.take(i as int),
                self.index_buffer@ == old_indices,
                self.texture_id == old(self).texture_id,
            decreases vertices@.len() - i,
        {
            self.vertex_buffer.push(vertices[i]);
            i = i + 1;
            assert(self.vertex_buffer@ =~= old_vertices + vertices@.take(i as int));
        }
        assert(vertices@.take(vertices@.len() as int) =~= vertices@);
        let ghost shifted = triangles@.map_values(|t: u32| (t + index_offset) as u32);
        let mut j: usize = 0;
        while j < triangles.len()
            invariant
                j <= triangles@.len(),
                triangles@ == triangle_fan(vertices@.len() as int, clockwise),
                index_offset == old_vertices.len(),
                index_offset + vertices@.len() <= u32::MAX,
                shifted == triangles@.map_values(|t: u32| (t + index_offset) as u32),
                self.vertex_buffer@ == old_vertices + vertices@,
                self.index_buffer@ == old_indices + shifted.take(j as int),
                self.texture_id == old(self).texture_id,
            decreases triangles@.len() - j,
        {
            let t = triangles[j];
            assert(t < vertices@.len());
            self.index_buffer.push(t + index_offset as u32);
            j = j + 1;
            assert(self.index_buffer@ =~= old_indices + shifted.take(j as int));
        }
        assert(shifted.take(triangles@.len() as int) =~= shifted);
        assert(indices_in_range(old_indices, old_vertices.len() as int) ==> indices_in_range(
            self.index_buffer@,
            self.vertex_buffer@.len() as int,
        ));
    }
}

} // verus!
