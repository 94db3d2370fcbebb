//! The render-side buffer pair a frame is drawn from.

use vstd::prelude::*;

use crate::geometry::Triangles;

verus! {

/// The texture bytes and triangle buffers handed to the presentation
/// backend each frame.
#[derive(Debug)]
pub struct GpuRedraw {
    pub texture: Vec<u8>,
    pub triangles: Triangles,
}

impl GpuRedraw {
    /// An empty buffer pair.
    pub fn new() -> (r: GpuRedraw)
        ensures
            r.texture@.len() == 0,
            r.triangles.vertices@.len() == 0,
            r.triangles.indices@.len() == 0,
    {
        GpuRedraw { texture: Vec::new(), triangles: Triangles::new() }
    }

    /// Replaces the texture bytes.
    pub fn update_texture(&mut self, textures: Vec<u8>)
        ensures
            final(self).texture@ == textures@,
            final(self).triangles.vertices@ == old(self).triangles.vertices@,
            final(self).triangles.indices@ == old(self).triangles.indices@,
    {
        self.texture = textures;
    }

    /// Splices a triangle tail in: the index buffer is replaced from
    /// `offset` on, and the vertex buffer from the position the index
    /// entry after the offset referenced.
    pub fn update_triangles(&mut self, triangles: Triangles, offset: usize)
        requires
            offset == 0 || offset + 1 < old(self).triangles.indices@.len(),
            offset > 0 ==> old(self).triangles.indices@[offset + 1]
                <= old(self).triangles.vertices@.len(),
            offset <= old(self).triangles.indices@.len(),
        ensures
            final(self).triangles.indices@ == old(self).triangles.indices@.subrange(
                0,
                offset as int,
            ) + triangles.indices@,
            final(self).triangles.vertices@ == old(self).triangles.vertices@.subrange(
                0,
                if offset > 0 {
                    old(self).triangles.indices@[offset + 1] as int
                } else {
                    0
                },
            ) + triangles.vertices@,
            final(self).texture@ == old(self).texture@,
    {
        let n_idx = self.triangles.indices.len();
        let v_i: usize = if offset > 0 {
            self.triangles.indices[offset + 1]
        } else {
            0
        };
        self.triangles.indices.truncate(offset);
        let mut k: usize = 0;
        while k < triangles.indices.len()
            invariant
                k <= triangles.indices@.len(),
                self.triangles.indices@ == old(self).triangles.indices@.subrange(0, offset as int)
                    + triangles.indices@.subrange(0, k as int),
                self.triangles.vertices@ == old(self).triangles.vertices@,
                self.texture@ == old(self).texture@,
            decreases triangles.indices@.len() - k,
        {
            self.triangles.indices.push(triangles.indices[k]);
            assert(self.triangles.indices@ =~= old(self).triangles.indices@.subrange(
                0,
                offset as int,
            ) + triangles.indices@.subrange(0, k + 1));
            k = k + 1;
        }
        assert(triangles.indices@.subrange(0, triangles.indices@.len() as int)
            =~= triangles.indices@);
        let ghost vi_spec: int = if offset > 0 {
            old(self).triangles.indices@[offset + 1] as int
        } else {
            0
        };
        assert(v_i as int == vi_spec);
        self.triangles.vertices.truncate(v_i);
        assert(self.triangles.vertices@ =~= old(self).triangles.vertices@.subrange(0, vi_spec));
        let mut k: usize = 0;
        while k < triangles.vertices.len()
            invariant
                k <= triangles.vertices@.len(),
                vi_spec == (
                if offset > 0 {
                    old(self).triangles.indices@[offset + 1] as int
                } else {
                    0
                }),
                self.triangles.vertices@ == old(self).triangles.vertices@.subrange(0, vi_spec)
                    + triangles.vertices@.subrange(0, k as int),
                self.triangles.indices@ == old(self).triangles.indices@.subrange(0, offset as int)
                    + triangles.indices@,
                self.texture@ == old(self).texture@,
            decreases triangles.vertices@.len() - k,
        {
            self.triangles.vertices.push(triangles.vertices[k]);
            assert(self.triangles.vertices@ =~= old(self).triangles.vertices@.subrange(0, vi_spec)
                + triangles.vertices@.subrange(0, k + 1));
            k = k + 1;
        }
        assert(triangles.vertices@.subrange(0, triangles.vertices@.len() as int)
            =~= triangles.vertices@);
    }
}

} // verus!
