//! The depth buffer: for each pixel of a render target, the depth of what
//! was drawn there last. A greater depth is nearer to the viewer.

use vstd::prelude::*;
use crate::grid::{
    cell_index,
    coordinate_error,
    invalid_coordinate_text,
    lemma_cell_in_range,
    lemma_cell_injective,
};

verus! {

/// The depth of a pixel on which nothing was drawn: farther than any depth
/// that a point can have.
pub const FARTHEST: i64 = i64::MIN;

/// What a depth buffer is: its size and its depths row by row.
pub struct DepthModel {
    pub width: u16,
    pub height: u16,
    pub depths: Seq<i64>,
}

impl DepthModel {
    /// There is one depth for each coordinate.
    pub open spec fn wf(self) -> bool {
        self.depths.len() == self.width * self.height
    }

    pub open spec fn contains(self, x: int, y: int) -> bool {
        0 <= x < self.width && 0 <= y < self.height
    }

    pub open spec fn index(self, x: int, y: int) -> int {
        cell_index(self.width as int, x, y)
    }

    pub open spec fn at(self, x: int, y: int) -> i64 {
        self.depths[self.index(x, y)]
    }

    pub open spec fn with_depth(self, x: int, y: int, depth: i64) -> DepthModel {
        DepthModel { depths: self.depths.update(self.index(x, y), depth), ..self }
    }

    /// The buffer of the given size on which nothing was drawn.
    pub open spec fn cleared(width: u16, height: u16) -> DepthModel {
        DepthModel { width, height, depths: Seq::new((width * height) as nat, |i: int| FARTHEST) }
    }
}

/// Reading a depth that was just written gives the depth written, and every
/// other depth of the buffer keeps its value.
pub proof fn lemma_depth_after_write(buffer: DepthModel, x: int, y: int, depth: i64)
    requires
        buffer.wf(),
        buffer.contains(x, y),
    ensures
        buffer.with_depth(x, y, depth).wf(),
        buffer.with_depth(x, y, depth).at(x, y) == depth,
        forall|x2: int, y2: int|
            buffer.contains(x2, y2) && (x2 != x || y2 != y) ==> #[trigger] buffer.with_depth(
                x,
                y,
                depth,
            ).at(x2, y2) == buffer.at(x2, y2),
{
    lemma_cell_in_range(buffer.width as int, buffer.height as int, x, y);
    assert forall|x2: int, y2: int| buffer.contains(x2, y2) && (x2 != x || y2 != y) implies #[trigger]
        buffer.with_depth(x, y, depth).at(x2, y2) == buffer.at(x2, y2) by {
        lemma_cell_in_range(buffer.width as int, buffer.height as int, x2, y2);
        if buffer.index(x2, y2) == buffer.index(x, y) {
            lemma_cell_injective(buffer.width as int, x, y, x2, y2);
        }
    }
}

/// The depths of one render pass.
#[derive(Debug)]
pub struct DepthBuffer {
    width: u16,
    height: u16,
    depths: Vec<i64>,
}

impl View for DepthBuffer {
    type V = DepthModel;

    closed spec fn view(&self) -> DepthModel {
        DepthModel { width: self.width, height: self.height, depths: self.depths@ }
    }
}

impl DepthBuffer {
    #[verifier::type_invariant]
    spec fn well_formed(&self) -> bool {
        self.depths@.len() == self.width * self.height
    }

    /// A buffer of the given size on which nothing was drawn.
    pub fn new(width: u16, height: u16) -> (buffer: DepthBuffer)
        ensures
            buffer@ == DepthModel::cleared(width, height),
            buffer@.wf(),
    {
        assert(width * height <= 0xffff * 0xffff) by (nonlinear_arith)
            requires
                width <= 0xffff,
                height <= 0xffff,
        ;
        let count: usize = width as usize * height as usize;
        let depths: Vec<i64> = vec![FARTHEST; count];
        assert(depths@ =~= DepthModel::cleared(width, height).depths);
        DepthBuffer { width, height, depths }
    }

    pub fn get_width(&self) -> (width: u16)
        ensures
            width == self@.width,
            self@.wf(),
    {
        proof {
            use_type_invariant(self);
        }
        self.width
    }

    pub fn get_height(&self) -> (height: u16)
        ensures
            height == self@.height,
            self@.wf(),
    {
        proof {
            use_type_invariant(self);
        }
        self.height
    }

    /// The depth at `(x, y)`, or an error for a coordinate outside the buffer.
    pub fn get(&self, x: u16, y: u16) -> (result: Result<i64, String>)
        ensures
            self@.wf(),
            match result {
                Ok(depth) => self@.contains(x as int, y as int) && depth == self@.at(
                    x as int,
                    y as int,
                ),
                Err(message) => !self@.contains(x as int, y as int) && message@
                    == invalid_coordinate_text(self@.width, x, y),
            },
    {
        proof {
            use_type_invariant(self);
        }
        if x >= self.width || y >= self.height {
            return Err(coordinate_error(self.width, self.height, x, y));
        }
        proof {
            lemma_cell_in_range(self.width as int, self.height as int, x as int, y as int);
        }
        let index: usize = y as usize * self.width as usize + x as usize;
        Ok(self.depths[index])
    }

    /// Gives the pixel at `(x, y)` the depth `depth`, or returns an error and
    /// leaves the buffer as it was for a coordinate outside the buffer.
    pub fn set(&mut self, x: u16, y: u16, depth: i64) -> (result: Result<(), String>)
        ensures
            old(self)@.wf(),
            final(self)@.wf(),
            match result {
                Ok(()) => old(self)@.contains(x as int, y as int) && final(self)@ == old(
                    self,
                )@.with_depth(x as int, y as int, depth),
                Err(message) => !old(self)@.contains(x as int, y as int) && final(self)@ == old(
                    self,
                )@ && message@ == invalid_coordinate_text(old(self)@.width, x, y),
            },
    {
        proof {
            use_type_invariant(&*self);
        }
        if x >= self.width || y >= self.height {
            return Err(coordinate_error(self.width, self.height, x, y));
        }
        proof {
            lemma_cell_in_range(self.width as int, self.height as int, x as int, y as int);
        }
        let index: usize = y as usize * self.width as usize + x as usize;
        self.depths[index] = depth;
        Ok(())
    }
}

} // verus!
