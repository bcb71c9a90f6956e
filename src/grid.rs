//! Mathematical model of a row-major 2-D buffer.
use vstd::prelude::*;

verus! {

/// A `width` by `height` grid of cells stored row by row.
pub struct Grid<T> {
    pub width: nat,
    pub height: nat,
    pub cells: Seq<T>,
}

impl<T> Grid<T> {
    pub open spec fn wf(self) -> bool {
        self.cells.len() == self.width * self.height
    }

    pub open spec fn contains(self, x: int, y: int) -> bool {
        0 <= x < self.width && 0 <= y < self.height
    }

    pub open spec fn at(self, x: int, y: int) -> T {
        self.cells[y * self.width + x]
    }
}

/// The grid whose cell at `(x, y)` is `f(x, y)`.
pub open spec fn grid_from_fn<T>(w: nat, h: nat, f: spec_fn(int, int) -> T) -> Grid<T> {
    Grid { width: w, height: h, cells: Seq::new(w * h, |i: int| f(i % (w as int), i / (w as int))) }
}

/// A cell position inside a `w` by `h` grid has a row-major index below `w * h`.
pub proof fn lemma_index_in_bounds(w: int, h: int, x: int, y: int)
    requires
        0 <= x < w,
        0 <= y < h,
    ensures
        0 <= y * w + x < w * h,
{
    assert(0 <= y * w + x < w * h) by (nonlinear_arith)
        requires 0 <= x < w, 0 <= y < h;
}

/// The row-major index of `(x, y)` splits back into `x` and `y`.
pub proof fn lemma_index_split(w: int, x: int, y: int)
    requires
        0 <= x < w,
        0 <= y,
    ensures
        (y * w + x) % w == x,
        (y * w + x) / w == y,
{
    vstd::arithmetic::div_mod::lemma_fundamental_div_mod_converse(y * w + x, w, y, x);
}

pub proof fn lemma_grid_from_fn<T>(w: nat, h: nat, f: spec_fn(int, int) -> T)
    ensures
        grid_from_fn(w, h, f).wf(),
        grid_from_fn(w, h, f).width == w,
        grid_from_fn(w, h, f).height == h,
        forall|x: int, y: int|
            grid_from_fn(w, h, f).contains(x, y) ==> #[trigger] grid_from_fn(w, h, f).at(x, y)
                == f(x, y),
{
    let g = grid_from_fn(w, h, f);
    assert forall|x: int, y: int| g.contains(x, y) implies #[trigger] g.at(x, y) == f(x, y) by {
        lemma_index_in_bounds(w as int, h as int, x, y);
        lemma_index_split(w as int, x, y);
    }
}

/// Two well-formed grids of the same size that agree on every cell are equal.
pub proof fn lemma_grid_ext<T>(a: Grid<T>, b: Grid<T>)
    requires
        a.wf(),
        b.wf(),
        a.width == b.width,
        a.height == b.height,
        forall|x: int, y: int| a.contains(x, y) ==> #[trigger] a.at(x, y) == b.at(x, y),
    ensures
        a == b,
{
    let w = a.width as int;
    assert forall|i: int| 0 <= i < a.cells.len() implies a.cells[i] == b.cells[i] by {
        let x = i % w;
        let y = i / w;
        assert(w > 0) by (nonlinear_arith)
            requires 0 <= i < a.width * a.height, w == a.width;
        vstd::arithmetic::div_mod::lemma_fundamental_div_mod(i, w);
        assert(0 <= x < w);
        assert(y < a.height) by (nonlinear_arith)
            requires i == w * y + x, 0 <= x, i < w * a.height, w > 0;
        assert(0 <= y) by (nonlinear_arith)
            requires i == w * y + x, x < w, i >= 0, w > 0;
        assert(a.contains(x, y));
        assert(y * w + x == i) by (nonlinear_arith)
            requires i == w * y + x;
        assert(a.at(x, y) == b.at(x, y));
    }
    assert(a.cells =~= b.cells);
}

} // verus!
