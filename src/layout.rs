//! Grid geometry: columns, padding bands, canvas size and cell positions.
use vstd::prelude::*;

verus! {

/// Why a plot cannot be laid out.
#[derive(Clone, Copy, PartialEq, Eq, Structural, Debug)]
pub enum PlotError {
    /// No images were supplied.
    NoImages,
    /// The grid was asked to have no rows.
    ZeroRows,
    /// Row labels were given, but not one per row.
    RowLabelCount { expected: u32, actual: usize },
    /// Column labels were given, but not one per column.
    ColumnLabelCount { expected: usize, actual: usize },
    /// Image labels were given, but not one per image.
    ImageLabelCount { expected: usize, actual: usize },
    /// A canvas dimension would not fit in a signed 32-bit integer, or its
    /// pixel buffer would not fit in memory.
    ArithmeticOverflow,
}

/// The number of columns that `n` images need on `rows` rows: `ceil(n / rows)`.
pub open spec fn columns_for(n: int, rows: int) -> int {
    if n % rows == 0 {
        n / rows
    } else {
        n / rows + 1
    }
}

/// The derived layout of a plot. Images fill cells row by row; each cell is
/// `cell_width x cell_height`, of which the top `top_padding` rows hold labels
/// and the rest holds the image.
#[derive(Clone, Copy, PartialEq, Eq, Structural, Debug)]
pub struct GridGeometry {
    pub rows: u32,
    pub cols: usize,
    pub cell_width: u32,
    pub cell_height: u32,
    pub image_height: u32,
    pub top_padding: u32,
    pub left_padding: u32,
    pub canvas_width: u32,
    pub canvas_height: u32,
}

/// The canvas width for the given column count and padding.
pub open spec fn canvas_width_for(image_width: int, cols: int, left_padding: int) -> int {
    image_width * cols + left_padding
}

/// The canvas height: one label band above each row of images, plus one more.
pub open spec fn canvas_height_for(image_height: int, rows: int, top_padding: int) -> int {
    (image_height + top_padding) * rows + top_padding
}

/// Whether the layout of `n` images on `rows` rows fits signed 32-bit
/// canvas dimensions.
pub open spec fn layout_fits(
    n: int,
    rows: int,
    image_width: int,
    image_height: int,
    top_padding: int,
    left_padding: int,
) -> bool {
    canvas_width_for(image_width, columns_for(n, rows), left_padding) <= i32::MAX
        && canvas_height_for(image_height, rows, top_padding) <= i32::MAX
}

/// The layout of `n` images on `rows` rows with cells of the reference image
/// size and the given (already chosen) padding bands.
pub open spec fn planned_geometry(
    n: int,
    rows: u32,
    image_width: u32,
    image_height: u32,
    top_padding: u32,
    left_padding: u32,
) -> GridGeometry {
    let cols = columns_for(n, rows as int);
    GridGeometry {
        rows,
        cols: cols as usize,
        cell_width: image_width,
        cell_height: (image_height + top_padding) as u32,
        image_height,
        top_padding,
        left_padding,
        canvas_width: canvas_width_for(image_width as int, cols, left_padding as int) as u32,
        canvas_height: canvas_height_for(image_height as int, rows as int, top_padding as int) as u32,
    }
}

/// `columns_for(n, rows)` is the ceiling of `n / rows`: the fewest columns
/// whose `rows` rows hold all `n` images, and at most `n`.
pub proof fn lemma_columns_ceil(n: int, rows: int)
    requires
        n >= 1,
        rows >= 1,
    ensures
        1 <= columns_for(n, rows) <= n,
        columns_for(n, rows) * rows >= n,
        (columns_for(n, rows) - 1) * rows < n,
{
    vstd::arithmetic::div_mod::lemma_fundamental_div_mod(n, rows);
    let q = n / rows;
    let m = n % rows;
    assert(1 <= columns_for(n, rows) <= n && columns_for(n, rows) * rows >= n && (columns_for(n, rows) - 1)
        * rows < n) by (nonlinear_arith)
        requires
            n == rows * q + m,
            0 <= m < rows,
            n >= 1,
            rows >= 1,
            columns_for(n, rows) == if m == 0 { q } else { q + 1 };
}

impl GridGeometry {
    /// The fields agree with each other as `plan_grid` sets them.
    pub open spec fn wf(self) -> bool {
        &&& self.rows >= 1
        &&& self.cols >= 1
        &&& self.cell_height == self.image_height + self.top_padding
        &&& self.canvas_width == canvas_width_for(self.cell_width as int, self.cols as int, self.left_padding as int)
        &&& self.canvas_height == canvas_height_for(self.image_height as int, self.rows as int, self.top_padding as int)
        &&& self.canvas_width <= i32::MAX
        &&& self.canvas_height <= i32::MAX
    }

    /// The number of cells in the grid.
    pub open spec fn cell_count(self) -> int {
        self.rows * self.cols
    }

    pub open spec fn row_of(self, i: int) -> int {
        i / (self.cols as int)
    }

    pub open spec fn col_of(self, i: int) -> int {
        i % (self.cols as int)
    }

    pub open spec fn origin_x(self, i: int) -> int {
        self.col_of(i) * self.cell_width + self.left_padding
    }

    pub open spec fn origin_y(self, i: int) -> int {
        self.row_of(i) * self.cell_height + self.top_padding
    }
}

/// Lays out `image_count` images of `image_width x image_height` on `rows`
/// rows, with the given padding bands.
pub fn plan_grid(
    image_count: usize,
    rows: u32,
    image_width: u32,
    image_height: u32,
    top_padding: u32,
    left_padding: u32,
) -> (r: Result<GridGeometry, PlotError>)
    ensures
        image_count == 0 ==> r == Err::<GridGeometry, PlotError>(PlotError::NoImages),
        image_count > 0 && rows == 0 ==> r == Err::<GridGeometry, PlotError>(PlotError::ZeroRows),
        image_count > 0 && rows > 0 ==> r == if layout_fits(
            image_count as int,
            rows as int,
            image_width as int,
            image_height as int,
            top_padding as int,
            left_padding as int,
        ) {
            Ok(planned_geometry(image_count as int, rows, image_width, image_height, top_padding, left_padding))
        } else {
            Err(PlotError::ArithmeticOverflow)
        },
        r matches Ok(g) ==> g.wf(),
{
    if image_count == 0 {
        return Err(PlotError::NoImages);
    }
    if rows == 0 {
        return Err(PlotError::ZeroRows);
    }
    proof {
        if rows > 1 {
            vstd::arithmetic::div_mod::lemma_div_decreases(image_count as int, rows as int);
        } else {
            assert(image_count % 1 == 0);
        }
    }
    let cols: usize = if image_count % rows as usize == 0 {
        image_count / rows as usize
    } else {
        image_count / rows as usize + 1
    };
    proof {
        assert(cols == columns_for(image_count as int, rows as int));
        lemma_columns_ceil(image_count as int, rows as int);
        assert(image_width as int * cols as int <= u32::MAX as int * u64::MAX as int) by (nonlinear_arith)
            requires image_width <= u32::MAX, cols <= u64::MAX;
        assert((image_height as int + top_padding as int) * rows as int <= (2 * u32::MAX as int) * u32::MAX as int)
            by (nonlinear_arith)
            requires image_height <= u32::MAX, top_padding <= u32::MAX, rows <= u32::MAX;
    }
    let width: u128 = image_width as u128 * cols as u128 + left_padding as u128;
    let height: u128 = (image_height as u128 + top_padding as u128) * rows as u128 + top_padding as u128;
    if width > i32::MAX as u128 || height > i32::MAX as u128 {
        return Err(PlotError::ArithmeticOverflow);
    }
    proof {
        assert(image_height + top_padding <= height) by (nonlinear_arith)
            requires height == (image_height + top_padding) * rows + top_padding, rows >= 1;
    }
    Ok(
        GridGeometry {
            rows,
            cols,
            cell_width: image_width,
            cell_height: image_height + top_padding,
            image_height,
            top_padding,
            left_padding,
            canvas_width: width as u32,
            canvas_height: height as u32,
        },
    )
}

/// Each of `n` images on `rows` rows goes to its own cell: image `i` sits in
/// row `i / cols` and column `i % cols`, both inside the grid, and two
/// different images never share a cell.
pub proof fn lemma_cells_distinct(n: int, rows: int, i: int, j: int)
    requires
        n >= 1,
        rows >= 1,
        0 <= i < n,
        0 <= j < n,
    ensures
        0 <= i / columns_for(n, rows) < rows,
        0 <= i % columns_for(n, rows) < columns_for(n, rows),
        i != j ==> (i / columns_for(n, rows), i % columns_for(n, rows)) != (
            j / columns_for(n, rows),
            j % columns_for(n, rows),
        ),
{
    let cols = columns_for(n, rows);
    lemma_columns_ceil(n, rows);
    lemma_cell_in_grid(cols, rows, i);
    if i != j && i / cols == j / cols && i % cols == j % cols {
        vstd::arithmetic::div_mod::lemma_fundamental_div_mod(i, cols);
        vstd::arithmetic::div_mod::lemma_fundamental_div_mod(j, cols);
    }
}

/// A cell index below `rows * cols` has its row below `rows` and its column
/// below `cols`.
pub proof fn lemma_cell_in_grid(cols: int, rows: int, i: int)
    requires
        cols >= 1,
        0 <= i < rows * cols,
    ensures
        0 <= i / cols < rows,
        0 <= i % cols < cols,
{
    vstd::arithmetic::div_mod::lemma_fundamental_div_mod(i, cols);
    let q = i / cols;
    let m = i % cols;
    assert(0 <= q < rows) by (nonlinear_arith)
        requires i == cols * q + m, 0 <= m < cols, 0 <= i < rows * cols, cols >= 1;
}

/// The image area of every cell in column `c` lies inside the canvas width.
pub proof fn lemma_column_in_canvas(g: GridGeometry, c: int)
    requires
        g.wf(),
        0 <= c < g.cols,
    ensures
        c * g.cell_width + g.left_padding + g.cell_width <= g.canvas_width,
{
    assert(c * g.cell_width + g.cell_width <= g.cell_width * g.cols) by (nonlinear_arith)
        requires c < g.cols;
}

/// The label band and image area of every cell in row `r` lie inside the
/// canvas height.
pub proof fn lemma_row_in_canvas(g: GridGeometry, r: int)
    requires
        g.wf(),
        0 <= r < g.rows,
    ensures
        r * g.cell_height + g.top_padding + g.image_height <= g.canvas_height,
{
    assert(r * g.cell_height + g.cell_height <= (g.image_height + g.top_padding) * g.rows) by (nonlinear_arith)
        requires r < g.rows, g.cell_height == g.image_height + g.top_padding;
}

impl GridGeometry {
    /// The top-left pixel of the image area of cell `i`.
    pub fn cell_origin(&self, i: usize) -> (r: (u32, u32))
        requires
            self.wf(),
            i < self.cell_count(),
        ensures
            r.0 == self.origin_x(i as int),
            r.1 == self.origin_y(i as int),
            r.0 + self.cell_width <= self.canvas_width,
            r.1 + self.image_height <= self.canvas_height,
    {
        let row = i / self.cols;
        let col = i % self.cols;
        proof {
            lemma_cell_in_grid(self.cols as int, self.rows as int, i as int);
            assert(col * self.cell_width + self.cell_width <= self.cols * self.cell_width) by (nonlinear_arith)
                requires col < self.cols;
            assert(row * self.cell_height + self.cell_height <= self.rows * self.cell_height) by (nonlinear_arith)
                requires row < self.rows;
        }
        let x = col as u64 * self.cell_width as u64 + self.left_padding as u64;
        let y = row as u64 * self.cell_height as u64 + self.top_padding as u64;
        (x as u32, y as u32)
    }
}

} // verus!
