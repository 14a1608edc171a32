//! The program state: a rectangular grid of cells, the halt flag and the
//! text that print processors have emitted.
use vstd::prelude::*;
use crate::space::{Space, SpaceType, ValueType};
use crate::tally::count_real;

verus! {

/// A program under execution. `grid` holds the cells row by row: the cell in
/// row `y` and column `x` is `grid[y * width + x]`.
pub struct Program {
    pub grid: Vec<Space>,
    pub width: usize,
    pub height: usize,
    pub running: bool,
    pub output: Vec<char>,
}

pub proof fn lemma_index_bounds(y: int, x: int, w: int, h: int)
    requires
        0 <= y < h,
        0 <= x < w,
    ensures
        0 <= y * w + x < w * h,
        (y + 1) * w + x == y * w + x + w,
        (y - 1) * w + x == y * w + x - w,
{
    assert(0 <= y * w + x < w * h) by (nonlinear_arith)
        requires
            0 <= y < h,
            0 <= x < w,
    ;
    assert((y + 1) * w == y * w + w) by (nonlinear_arith);
    assert((y - 1) * w == y * w - w) by (nonlinear_arith);
}

/// A grid in which nothing but conveyors, logical conveyors and walls stand.
pub open spec fn movers_only(s: Seq<Space>) -> bool {
    forall|i: int|
        0 <= i < s.len() ==> !(#[trigger] s[i].space_type is Operator) && !(s[i].space_type is Processor)
}

pub proof fn lemma_movers_kept(a: Seq<Space>, b: Seq<Space>)
    requires
        same_layout(a, b),
        movers_only(a),
    ensures
        movers_only(b),
{
    assert forall|i: int| 0 <= i < b.len() implies !(#[trigger] b[i].space_type is Operator) && !(
    b[i].space_type is Processor) by {
        assert(a[i].space_type == b[i].space_type);
    }
}

/// Two grids with the same kinds of cell in the same places.
pub open spec fn same_layout(a: Seq<Space>, b: Seq<Space>) -> bool {
    &&& a.len() == b.len()
    &&& forall|i: int| 0 <= i < a.len() ==> #[trigger] a[i].space_type == b[i].space_type
}

impl Program {
    /// The grid is `width` by `height` and every cell's slot agrees with its kind.
    pub open spec fn wf(&self) -> bool {
        &&& self.grid@.len() == self.width * self.height
        &&& forall|i: int| 0 <= i < self.grid@.len() ==> (#[trigger] self.grid@[i]).wf()
    }

    /// The position in `grid` of row `y`, column `x`.
    pub open spec fn index(&self, y: int, x: int) -> int {
        y * self.width + x
    }

    pub open spec fn in_grid(&self, y: int, x: int) -> bool {
        0 <= y < self.height && 0 <= x < self.width
    }

    pub open spec fn value_at(&self, y: int, x: int) -> ValueType {
        self.grid@[self.index(y, x)].value
    }

    pub open spec fn kind_at(&self, y: int, x: int) -> SpaceType {
        self.grid@[self.index(y, x)].space_type
    }

    /// How many values are on the grid.
    pub open spec fn count(&self) -> nat {
        count_real(self.grid@)
    }

    /// `next` differs from `self` at most in the values that cells hold, and
    /// has only added output and only ever stopped running.
    pub open spec fn evolves_to(&self, next: &Program) -> bool {
        &&& next.wf()
        &&& next.width == self.width
        &&& next.height == self.height
        &&& same_layout(self.grid@, next.grid@)
        &&& self.output@.len() <= next.output@.len()
        &&& next.output@.subrange(0, self.output@.len() as int) == self.output@
        &&& (next.running ==> self.running)
    }

    /// Nothing observable changed between `self` and `next`.
    pub open spec fn same_state(&self, next: &Program) -> bool {
        &&& next.grid@ == self.grid@
        &&& next.output@ == self.output@
        &&& next.running == self.running
    }

    /// Hands over the text emitted so far and starts the record afresh.
    pub fn take_output(&mut self) -> (r: Vec<char>)
        ensures
            r@ == old(self).output@,
            final(self).output@.len() == 0,
            final(self).grid@ == old(self).grid@,
            final(self).width == old(self).width,
            final(self).height == old(self).height,
            final(self).running == old(self).running,
    {
        let mut out: Vec<char> = Vec::new();
        std::mem::swap(&mut out, &mut self.output);
        out
    }

    pub fn cell_index(&self, y: usize, x: usize) -> (i: usize)
        requires
            self.wf(),
            y < self.height,
            x < self.width,
        ensures
            i == self.index(y as int, x as int),
            i < self.grid@.len(),
    {
        let n = self.grid.len();
        proof {
            lemma_index_bounds(y as int, x as int, self.width as int, self.height as int);
            assert(y * self.width + x < n);
        }
        y * self.width + x
    }

    /// The cell `dy` rows and `dx` columns away from (`y`, `x`), if it lies on the grid.
    pub fn offset(&self, y: usize, x: usize, dy: i8, dx: i8) -> (r: Option<(usize, usize)>)
        requires
            y < self.height,
            x < self.width,
        ensures
            r is None <==> !self.in_grid(y + dy, x + dx),
            r matches Some((ny, nx)) ==> ny == y + dy && nx == x + dx && self.in_grid(
                ny as int,
                nx as int,
            ),
    {
        let ny: usize;
        if dy < 0 {
            let d = (-(dy as i16)) as usize;
            if y < d {
                return None;
            }
            ny = y - d;
        } else {
            let d = dy as usize;
            if self.height - y <= d {
                return None;
            }
            ny = y + d;
        }
        let nx: usize;
        if dx < 0 {
            let d = (-(dx as i16)) as usize;
            if x < d {
                return None;
            }
            nx = x - d;
        } else {
            let d = dx as usize;
            if self.width - x <= d {
                return None;
            }
            nx = x + d;
        }
        Some((ny, nx))
    }
}

} // verus!
