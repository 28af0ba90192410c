//! Shadow maps: grids of depth, one for a directional light or a cascade,
//! six in a cube for a point light. A depth is a fixed-point number in
//! `[0, ONE]`, and a cleared texel holds `ONE`, the far plane.

use crate::cube::CubeFace;
use crate::error::ShadowError;
use crate::scalar::ONE;
use vstd::prelude::*;

verus! {

/// The largest width or height of a shadow map.
pub const MAX_RESOLUTION: usize = 16384;

/// A grid of depths, stored row by row.
#[derive(Debug)]
pub struct DepthMap {
    pub width: usize,
    pub height: usize,
    pub texels: Vec<u64>,
}

/// A texel index stays inside the grid.
pub proof fn lemma_texel_index(x: int, y: int, w: int, h: int)
    by (nonlinear_arith)
    requires
        0 <= x < w,
        0 <= y < h,
    ensures
        0 <= y * w + x < w * h,
{
}

/// Two texels with the same index are the same texel.
pub proof fn lemma_texel_index_injective(x1: int, y1: int, x2: int, y2: int, w: int)
    by (nonlinear_arith)
    requires
        0 <= x1 < w,
        0 <= x2 < w,
        0 <= y1,
        0 <= y2,
        y1 * w + x1 == y2 * w + x2,
    ensures
        x1 == x2,
        y1 == y2,
{
}

impl DepthMap {
    /// The grid has a size within the limits, a depth for each texel, and
    /// no depth beyond the far plane.
    pub open spec fn wf(&self) -> bool {
        &&& 1 <= self.width <= MAX_RESOLUTION
        &&& 1 <= self.height <= MAX_RESOLUTION
        &&& self.texels.len() == self.width * self.height
        &&& forall|i: int| 0 <= i < self.texels.len() ==> #[trigger] self.texels[i] <= ONE
    }

    /// Whether `(x, y)` is a texel of the grid.
    pub open spec fn inside(&self, x: int, y: int) -> bool {
        0 <= x < self.width && 0 <= y < self.height
    }

    /// The depth stored at a texel of the grid.
    pub open spec fn at(&self, x: int, y: int) -> u64 {
        self.texels[y * self.width + x]
    }

    /// The depth read at `(x, y)`: outside the grid every read gives the
    /// far plane.
    pub open spec fn fetch_spec(&self, x: int, y: int) -> u64 {
        if self.inside(x, y) {
            self.at(x, y)
        } else {
            ONE
        }
    }

    /// Every texel holds the far plane.
    pub open spec fn cleared(&self) -> bool {
        forall|i: int| 0 <= i < self.texels.len() ==> #[trigger] self.texels[i] == ONE
    }

    /// Whether a grid of this size can be created.
    pub open spec fn size_valid(width: int, height: int) -> bool {
        1 <= width <= MAX_RESOLUTION && 1 <= height <= MAX_RESOLUTION
    }

    /// Creates a cleared grid. A size of zero, or one beyond
    /// `MAX_RESOLUTION`, cannot be allocated.
    pub fn new(width: usize, height: usize) -> (r: Result<DepthMap, ShadowError>)
        ensures
            r is Ok <==> Self::size_valid(width as int, height as int),
            r is Err ==> r->Err_0 == ShadowError::ResourceAllocationFailure,
            r is Ok ==> {
                &&& r->Ok_0.wf()
                &&& r->Ok_0.width == width
                &&& r->Ok_0.height == height
                &&& r->Ok_0.cleared()
            },
    {
        if width == 0 || height == 0 || width > MAX_RESOLUTION || height > MAX_RESOLUTION {
            return Err(ShadowError::ResourceAllocationFailure);
        }
        proof {
            crate::scalar::lemma_mul_le(
                width as int,
                height as int,
                MAX_RESOLUTION as int,
                MAX_RESOLUTION as int,
            );
        }
        let count: usize = width * height;
        let mut texels: Vec<u64> = Vec::new();
        let mut i: usize = 0;
        while i < count
            invariant
                i <= count,
                texels.len() == i,
                forall|j: int| 0 <= j < i ==> #[trigger] texels[j] == ONE,
            decreases count - i,
        {
            texels.push(ONE);
            i = i + 1;
        }
        Ok(DepthMap { width, height, texels })
    }

    /// Overwrites every texel with the far plane.
    pub fn clear(&mut self)
        requires
            old(self).wf(),
        ensures
            final(self).wf(),
            final(self).width == old(self).width,
            final(self).height == old(self).height,
            final(self).cleared(),
    {
        let count = self.texels.len();
        let mut i: usize = 0;
        while i < count
            invariant
                i <= count,
                self.texels.len() == count,
                self.width == old(self).width,
                self.height == old(self).height,
                count == self.width * self.height,
                1 <= self.width <= MAX_RESOLUTION,
                1 <= self.height <= MAX_RESOLUTION,
                forall|j: int| 0 <= j < i ==> #[trigger] self.texels[j] == ONE,
                forall|j: int| 0 <= j < count ==> #[trigger] self.texels[j] <= ONE,
            decreases count - i,
        {
            self.texels.set(i, ONE);
            i = i + 1;
        }
    }

    /// The depth stored at a texel of the grid.
    pub fn get(&self, x: usize, y: usize) -> (r: u64)
        requires
            self.wf(),
            self.inside(x as int, y as int),
        ensures
            r == self.at(x as int, y as int),
            r <= ONE,
    {
        proof {
            lemma_texel_index(x as int, y as int, self.width as int, self.height as int);
            crate::scalar::lemma_mul_le(
                self.width as int,
                self.height as int,
                MAX_RESOLUTION as int,
                MAX_RESOLUTION as int,
            );
            crate::scalar::lemma_mul_le(
                y as int,
                self.width as int,
                MAX_RESOLUTION as int,
                MAX_RESOLUTION as int,
            );
        }
        self.texels[y * self.width + x]
    }

    /// The depth read at `(x, y)`, which may lie outside the grid.
    pub fn fetch(&self, x: i64, y: i64) -> (r: u64)
        requires
            self.wf(),
        ensures
            r == self.fetch_spec(x as int, y as int),
            r <= ONE,
    {
        if x < 0 || y < 0 {
            return ONE;
        }
        if x >= self.width as i64 || y >= self.height as i64 {
            return ONE;
        }
        self.get(x as usize, y as usize)
    }

    /// Writes a depth through the depth test: the texel keeps the smaller
    /// of the depth it holds and the new one. No other texel changes.
    pub fn store(&mut self, x: usize, y: usize, depth: u64)
        requires
            old(self).wf(),
            old(self).inside(x as int, y as int),
            depth <= ONE,
        ensures
            final(self).wf(),
            final(self).width == old(self).width,
            final(self).height == old(self).height,
            final(self).texels@ == old(self).texels@.update(
                y * old(self).width + x,
                if depth < old(self).at(x as int, y as int) {
                    depth
                } else {
                    old(self).at(x as int, y as int)
                },
            ),
    {
        proof {
            lemma_texel_index(x as int, y as int, self.width as int, self.height as int);
            crate::scalar::lemma_mul_le(
                self.width as int,
                self.height as int,
                MAX_RESOLUTION as int,
                MAX_RESOLUTION as int,
            );
            crate::scalar::lemma_mul_le(
                y as int,
                self.width as int,
                MAX_RESOLUTION as int,
                MAX_RESOLUTION as int,
            );
        }
        let i: usize = y * self.width + x;
        let held: u64 = self.texels[i];
        let kept: u64 = if depth < held { depth } else { held };
        self.texels.set(i, kept);
    }
}

/// The six shadow maps of a point light, in the usual order of cube faces.
#[derive(Debug)]
pub struct DepthCube {
    pub size: usize,
    pub faces: Vec<DepthMap>,
}

impl DepthCube {
    /// There are six square maps of the cube's size.
    pub open spec fn wf(&self) -> bool {
        &&& self.faces.len() == 6
        &&& 1 <= self.size <= MAX_RESOLUTION
        &&& forall|f: int|
            0 <= f < 6 ==> (#[trigger] self.faces[f]).wf() && self.faces[f].width == self.size
                && self.faces[f].height == self.size
    }

    /// The depth stored at a texel of a face.
    pub open spec fn at(&self, face: CubeFace, x: int, y: int) -> u64 {
        self.faces[face.index_spec()].at(x, y)
    }

    /// Every texel of every face holds the far plane.
    pub open spec fn cleared(&self) -> bool {
        forall|f: int| 0 <= f < 6 ==> (#[trigger] self.faces[f]).cleared()
    }

    /// Creates a cleared cube. A size of zero, or one beyond
    /// `MAX_RESOLUTION`, cannot be allocated.
    pub fn new(size: usize) -> (r: Result<DepthCube, ShadowError>)
        ensures
            r is Ok <==> 1 <= size <= MAX_RESOLUTION,
            r is Err ==> r->Err_0 == ShadowError::ResourceAllocationFailure,
            r is Ok ==> r->Ok_0.wf() && r->Ok_0.size == size && r->Ok_0.cleared(),
    {
        let mut faces: Vec<DepthMap> = Vec::new();
        let mut i: usize = 0;
        while i < 6
            invariant
                i <= 6,
                faces.len() == i,
                i > 0 ==> 1 <= size <= MAX_RESOLUTION,
                forall|f: int|
                    0 <= f < i ==> (#[trigger] faces[f]).wf() && faces[f].width == size
                        && faces[f].height == size && faces[f].cleared(),
            decreases 6 - i,
        {
            match DepthMap::new(size, size) {
                Ok(m) => {
                    faces.push(m);
                },
                Err(e) => {
                    return Err(e);
                },
            }
            i = i + 1;
        }
        Ok(DepthCube { size, faces })
    }

    /// Overwrites every texel of every face with the far plane.
    pub fn clear(&mut self)
        requires
            old(self).wf(),
        ensures
            final(self).wf(),
            final(self).size == old(self).size,
            final(self).cleared(),
    {
        let mut i: usize = 0;
        while i < 6
            invariant
                i <= 6,
                self.wf(),
                self.size == old(self).size,
                forall|f: int| 0 <= f < i ==> (#[trigger] self.faces[f]).cleared(),
            decreases 6 - i,
        {
            let mut face = DepthMap { width: 0, height: 0, texels: Vec::new() };
            std::mem::swap(&mut face, &mut self.faces[i]);
            face.clear();
            self.faces.set(i, face);
            i = i + 1;
        }
    }

    /// The depth stored at a texel of a face.
    pub fn get(&self, face: CubeFace, x: usize, y: usize) -> (r: u64)
        requires
            self.wf(),
            x < self.size,
            y < self.size,
        ensures
            r == self.at(face, x as int, y as int),
            r <= ONE,
    {
        self.faces[face.index()].get(x, y)
    }

    /// Writes a depth to a texel of a face through the depth test. No other
    /// texel changes.
    pub fn store(&mut self, face: CubeFace, x: usize, y: usize, depth: u64)
        requires
            old(self).wf(),
            x < old(self).size,
            y < old(self).size,
            depth <= ONE,
        ensures
            final(self).wf(),
            final(self).size == old(self).size,
            forall|f: int|
                0 <= f < 6 && f != face.index_spec() ==> final(self).faces[f] == old(
                    self,
                ).faces[f],
            final(self).faces[face.index_spec()].texels@ == old(self).faces[face.index_spec()].texels@.update(
                y * old(self).size + x,
                if depth < old(self).at(face, x as int, y as int) {
                    depth
                } else {
                    old(self).at(face, x as int, y as int)
                },
            ),
    {
        let i = face.index();
        let mut m = DepthMap { width: 0, height: 0, texels: Vec::new() };
        std::mem::swap(&mut m, &mut self.faces[i]);
        m.store(x, y, depth);
        self.faces.set(i, m);
    }
}

} // verus!
