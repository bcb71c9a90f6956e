//! The plot compositor: validates a request, lays out the grid, draws the
//! labels, copies the images into their cells and, on request, outlines the
//! cells.
use vstd::prelude::*;

use crate::grid::{Grid, grid_from_fn, lemma_grid_from_fn, lemma_index_split};
use crate::layout::{
    columns_for, layout_fits, lemma_cell_in_grid, lemma_column_in_canvas, lemma_columns_ceil, lemma_row_in_canvas, plan_grid, planned_geometry,
    GridGeometry, PlotError,
};
use crate::raster::{filled_region, lemma_pasted_keeps, pasted, Region, Rgb, RgbImage};
use crate::text::{aligned_start, draw_text, lemma_text_keeps, text_drawn, text_width, Glyph, LabelAlignment};

verus! {

/// What to plot and how. Label lists are either empty or hold one label per
/// row, per column or per image.
#[derive(Clone, Debug)]
pub struct PlotRequest {
    pub rows: u32,
    pub row_labels: Vec<String>,
    pub column_labels: Vec<String>,
    pub image_labels: Vec<String>,
    pub row_label_alignment: LabelAlignment,
    pub column_label_alignment: LabelAlignment,
    /// Height of the label band above each row of images.
    pub top_padding: u32,
    /// Width of the row label band left of the grid.
    pub left_padding: u32,
    /// Pixels per em at which the labels were rasterized.
    pub label_size: u32,
    /// Outline every cell.
    pub debug_mode: bool,
}

/// The rasterized labels of a request, index for index with its label lists.
/// A missing run draws nothing.
#[derive(Clone, Debug)]
pub struct LabelGlyphs {
    pub rows: Vec<Vec<Glyph>>,
    pub columns: Vec<Vec<Glyph>>,
    pub images: Vec<Vec<Glyph>>,
}

/// The canvas colour before anything is drawn.
pub open spec fn background() -> Rgb {
    Rgb { r: 255, g: 255, b: 255 }
}

pub open spec fn label_color() -> Rgb {
    Rgb { r: 0, g: 0, b: 0 }
}

pub open spec fn guide_color() -> Rgb {
    Rgb { r: 255, g: 0, b: 0 }
}

pub open spec fn any_nonempty(labels: Seq<String>) -> bool {
    exists|k: int| 0 <= k < labels.len() && (#[trigger] labels[k])@.len() > 0
}

/// The width of the row label band: the configured width when some row label
/// has text, else nothing.
pub open spec fn left_band(req: PlotRequest) -> u32 {
    if any_nonempty(req.row_labels@) {
        req.left_padding
    } else {
        0
    }
}

/// Whether any class of labels (row, column or image) is given.
pub open spec fn labels_present(req: PlotRequest) -> bool {
    req.row_labels@.len() > 0 || req.column_labels@.len() > 0 || req.image_labels@.len() > 0
}

/// The height of each label band: the configured height when any class of
/// labels is given, else nothing.
pub open spec fn top_band(req: PlotRequest) -> u32 {
    if labels_present(req) {
        req.top_padding
    } else {
        0
    }
}

/// The layout of `n` images whose first one is `w x h`, or why there is none.
/// Label counts are checked before any geometry.
pub open spec fn plan_for(req: PlotRequest, n: int, w: u32, h: u32) -> Result<GridGeometry, PlotError> {
    if n == 0 {
        Err(PlotError::NoImages)
    } else if req.rows == 0 {
        Err(PlotError::ZeroRows)
    } else if req.row_labels@.len() > 0 && req.row_labels@.len() != req.rows {
        Err(PlotError::RowLabelCount { expected: req.rows, actual: req.row_labels@.len() as usize })
    } else if req.column_labels@.len() > 0 && req.column_labels@.len() != columns_for(n, req.rows as int) {
        Err(
            PlotError::ColumnLabelCount {
                expected: columns_for(n, req.rows as int) as usize,
                actual: req.column_labels@.len() as usize,
            },
        )
    } else if req.image_labels@.len() > 0 && req.image_labels@.len() != n {
        Err(PlotError::ImageLabelCount { expected: n as usize, actual: req.image_labels@.len() as usize })
    } else if layout_fits(n, req.rows as int, w as int, h as int, top_band(req) as int, left_band(req) as int) {
        Ok(planned_geometry(n, req.rows, w, h, top_band(req), left_band(req)))
    } else {
        Err(PlotError::ArithmeticOverflow)
    }
}

fn has_nonempty(labels: &Vec<String>) -> (r: bool)
    ensures
        r == any_nonempty(labels@),
{
    let mut k: usize = 0;
    while k < labels.len()
        invariant
            k <= labels@.len(),
            forall|j: int| 0 <= j < k ==> (#[trigger] labels@[j])@.len() == 0,
        decreases labels@.len() - k,
    {
        if !labels[k].as_str().is_empty() {
            return true;
        }
        k = k + 1;
    }
    false
}

/// Checks the label counts of `request` against `image_count` images and
/// lays out the grid with cells the size of the first image,
/// `image_width x image_height`.
pub fn plan_plot(request: &PlotRequest, image_count: usize, image_width: u32, image_height: u32) -> (r: Result<
    GridGeometry,
    PlotError,
>)
    ensures
        r == plan_for(*request, image_count as int, image_width, image_height),
        r matches Ok(g) ==> g.wf(),
        image_count > 0 && request.rows > 0 && request.row_labels@.len() > 0 && request.row_labels@.len()
            != request.rows ==> r matches Err(PlotError::RowLabelCount { .. }),
        image_count > 0 && request.rows > 0 && (request.row_labels@.len() == 0 || request.row_labels@.len()
            == request.rows) && request.column_labels@.len() > 0 && request.column_labels@.len()
            != columns_for(image_count as int, request.rows as int) ==> r matches Err(
            PlotError::ColumnLabelCount { .. },
        ),
{
    if image_count == 0 {
        return Err(PlotError::NoImages);
    }
    if request.rows == 0 {
        return Err(PlotError::ZeroRows);
    }
    let rows = request.rows;
    if request.row_labels.len() > 0 && request.row_labels.len() != rows as usize {
        return Err(PlotError::RowLabelCount { expected: rows, actual: request.row_labels.len() });
    }
    proof {
        if rows > 1 {
            vstd::arithmetic::div_mod::lemma_div_decreases(image_count as int, rows as int);
        } else {
            assert(image_count % 1 == 0);
        }
    }
    let cols: usize = if image_count % rows as usize == 0 {
        image_count / rows as usize
    } else {
        image_count / rows as usize + 1
    };
    if request.column_labels.len() > 0 && request.column_labels.len() != cols {
        return Err(PlotError::ColumnLabelCount { expected: cols, actual: request.column_labels.len() });
    }
    if request.image_labels.len() > 0 && request.image_labels.len() != image_count {
        return Err(PlotError::ImageLabelCount { expected: image_count, actual: request.image_labels.len() });
    }
    let left = if has_nonempty(&request.row_labels) {
        request.left_padding
    } else {
        0
    };
    let top = if request.row_labels.len() > 0 || request.column_labels.len() > 0 || request.image_labels.len() > 0 {
        request.top_padding
    } else {
        0
    };
    plan_grid(image_count, rows, image_width, image_height, top, left)
}

/// The anchor column of a label over the band `[lo, lo + len)`: its start,
/// middle or end as `alignment` asks.
pub open spec fn band_anchor(lo: int, len: int, alignment: LabelAlignment) -> int {
    match alignment {
        LabelAlignment::Start => lo,
        LabelAlignment::Center => lo + len / 2,
        LabelAlignment::End => lo + len,
    }
}

/// The baseline that centers a label of `size` pixels per em in the band of
/// rows `[top, top + height)`.
pub open spec fn label_baseline(top: int, height: int, size: int) -> int {
    top + height / 2 + size / 3
}

/// The glyphs of run `k`, none if there is no such run.
pub open spec fn run_at(runs: Seq<Vec<Glyph>>, k: int) -> Seq<Glyph> {
    if 0 <= k < runs.len() {
        runs[k]@
    } else {
        Seq::empty()
    }
}

/// The band above the grid where column labels go.
pub open spec fn column_band(g: GridGeometry) -> Region {
    Region { left: 0, top: 0, right: g.canvas_width, bottom: g.top_padding }
}

/// The top row of the images of grid row `r`.
pub open spec fn row_top(g: GridGeometry, r: int) -> int {
    r * g.cell_height + g.top_padding
}

/// The part of the row label band beside the images of grid row `r`.
pub open spec fn row_band(g: GridGeometry, r: int) -> Region {
    Region {
        left: 0,
        top: row_top(g, r) as u32,
        right: g.left_padding,
        bottom: (row_top(g, r) + g.image_height) as u32,
    }
}

/// The image area of cell `i`.
pub open spec fn image_area(g: GridGeometry, i: int) -> Region {
    Region {
        left: g.origin_x(i) as u32,
        top: g.origin_y(i) as u32,
        right: (g.origin_x(i) + g.cell_width) as u32,
        bottom: (g.origin_y(i) + g.image_height) as u32,
    }
}

/// The label band above the image area of cell `i`.
pub open spec fn image_label_band(g: GridGeometry, i: int) -> Region {
    Region {
        left: g.origin_x(i) as u32,
        top: (g.origin_y(i) - g.top_padding) as u32,
        right: (g.origin_x(i) + g.cell_width) as u32,
        bottom: g.origin_y(i) as u32,
    }
}

/// `c` with the first `k` column labels drawn in the band above the grid.
pub open spec fn columns_labeled(c: Grid<Rgb>, g: GridGeometry, req: PlotRequest, runs: Seq<Vec<Glyph>>, k: int) -> Grid<Rgb>
    decreases k,
{
    if k <= 0 {
        c
    } else {
        text_drawn(
            columns_labeled(c, g, req, runs, k - 1),
            run_at(runs, k - 1),
            band_anchor(g.origin_x(k - 1), g.cell_width as int, req.column_label_alignment),
            label_baseline(0, g.top_padding as int, req.label_size as int),
            req.label_size,
            label_color(),
            req.column_label_alignment,
            column_band(g),
        )
    }
}

/// `c` with the labels of the first `k` rows drawn left of the grid.
pub open spec fn rows_labeled(c: Grid<Rgb>, g: GridGeometry, req: PlotRequest, runs: Seq<Vec<Glyph>>, k: int) -> Grid<Rgb>
    decreases k,
{
    if k <= 0 {
        c
    } else {
        text_drawn(
            rows_labeled(c, g, req, runs, k - 1),
            run_at(runs, k - 1),
            band_anchor(0, g.left_padding as int, req.row_label_alignment),
            label_baseline(row_top(g, k - 1), g.image_height as int, req.label_size as int),
            req.label_size,
            label_color(),
            req.row_label_alignment,
            row_band(g, k - 1),
        )
    }
}

/// `c` with image `i` in its cell: its label centered in the band above,
/// then its pixels, clipped to the image area.
pub open spec fn image_placed(c: Grid<Rgb>, g: GridGeometry, req: PlotRequest, img: Grid<Rgb>, run: Seq<Glyph>, i: int) -> Grid<Rgb> {
    let labeled = text_drawn(
        c,
        run,
        band_anchor(g.origin_x(i), g.cell_width as int, LabelAlignment::Center),
        label_baseline(g.origin_y(i) - g.top_padding, g.top_padding as int, req.label_size as int),
        req.label_size,
        label_color(),
        LabelAlignment::Center,
        image_label_band(g, i),
    );
    pasted(labeled, img, g.origin_x(i), g.origin_y(i), image_area(g, i))
}

/// `c` with the first `k` images placed.
pub open spec fn images_placed(
    c: Grid<Rgb>,
    g: GridGeometry,
    req: PlotRequest,
    imgs: Seq<RgbImage>,
    runs: Seq<Vec<Glyph>>,
    k: int,
) -> Grid<Rgb>
    decreases k,
{
    if k <= 0 {
        c
    } else {
        image_placed(images_placed(c, g, req, imgs, runs, k - 1), g, req, imgs[k - 1]@, run_at(runs, k - 1), k - 1)
    }
}

/// `c` with a one-pixel frame drawn just inside the `w x h` box at `(x, y)`.
pub open spec fn framed(c: Grid<Rgb>, x: int, y: int, w: int, h: int) -> Grid<Rgb> {
    if w == 0 || h == 0 {
        c
    } else {
        let top = Region { left: x as u32, top: y as u32, right: (x + w) as u32, bottom: (y + 1) as u32 };
        let bottom = Region { left: x as u32, top: (y + h - 1) as u32, right: (x + w) as u32, bottom: (y + h) as u32 };
        let left = Region { left: x as u32, top: y as u32, right: (x + 1) as u32, bottom: (y + h) as u32 };
        let right = Region { left: (x + w - 1) as u32, top: y as u32, right: (x + w) as u32, bottom: (y + h) as u32 };
        filled_region(
            filled_region(filled_region(filled_region(c, top, guide_color()), bottom, guide_color()), left, guide_color()),
            right,
            guide_color(),
        )
    }
}

/// `c` with the image areas of the first `k` cells framed.
pub open spec fn cells_framed(c: Grid<Rgb>, g: GridGeometry, k: int) -> Grid<Rgb>
    decreases k,
{
    if k <= 0 {
        c
    } else {
        framed(
            cells_framed(c, g, k - 1),
            g.origin_x(k - 1),
            g.origin_y(k - 1),
            g.cell_width as int,
            g.image_height as int,
        )
    }
}

/// The finished canvas for geometry `g`: background, column labels, row
/// labels, the images in order with their labels, then the cell frames when
/// debugging.
pub open spec fn plot_canvas(g: GridGeometry, req: PlotRequest, imgs: Seq<RgbImage>, labels: LabelGlyphs) -> Grid<Rgb> {
    let blank = grid_from_fn(g.canvas_width as nat, g.canvas_height as nat, |x: int, y: int| background());
    let with_columns = columns_labeled(blank, g, req, labels.columns@, g.cols as int);
    let with_rows = rows_labeled(with_columns, g, req, labels.rows@, g.rows as int);
    let with_images = images_placed(with_rows, g, req, imgs, labels.images@, imgs.len() as int);
    if req.debug_mode {
        cells_framed(with_images, g, g.rows * g.cols)
    } else {
        with_images
    }
}

/// The width of the first image, which sets the cell width.
pub open spec fn reference_width(imgs: Seq<RgbImage>) -> u32 {
    if imgs.len() > 0 {
        imgs[0]@.width as u32
    } else {
        0
    }
}

/// The height of the first image, which sets the image area height.
pub open spec fn reference_height(imgs: Seq<RgbImage>) -> u32 {
    if imgs.len() > 0 {
        imgs[0]@.height as u32
    } else {
        0
    }
}

fn band_anchor_exec(lo: u32, len: u32, alignment: LabelAlignment) -> (r: i64)
    ensures
        r == band_anchor(lo as int, len as int, alignment),
{
    match alignment {
        LabelAlignment::Start => lo as i64,
        LabelAlignment::Center => lo as i64 + (len / 2) as i64,
        LabelAlignment::End => lo as i64 + len as i64,
    }
}

fn label_baseline_exec(top: u32, height: u32, size: u32) -> (r: i64)
    ensures
        r == label_baseline(top as int, height as int, size as int),
{
    top as i64 + (height / 2) as i64 + (size / 3) as i64
}

/// Draws label run `k`, if there is one, in the label colour.
fn draw_run(
    canvas: &mut RgbImage,
    runs: &Vec<Vec<Glyph>>,
    k: usize,
    anchor_x: i64,
    baseline_y: i64,
    size: u32,
    alignment: LabelAlignment,
    clip: Region,
)
    ensures
        final(canvas)@ == text_drawn(
            old(canvas)@,
            run_at(runs@, k as int),
            anchor_x as int,
            baseline_y as int,
            size,
            label_color(),
            alignment,
            clip,
        ),
{
    if k < runs.len() {
        draw_text(canvas, &runs[k], anchor_x, baseline_y, size, Rgb { r: 0, g: 0, b: 0 }, alignment, clip);
    }
}

/// Draws a one-pixel frame in the guide colour just inside a box.
fn draw_frame(canvas: &mut RgbImage, x: u32, y: u32, w: u32, h: u32)
    requires
        x + w <= u32::MAX,
        y + h <= u32::MAX,
    ensures
        final(canvas)@ == framed(old(canvas)@, x as int, y as int, w as int, h as int),
{
    if w == 0 || h == 0 {
        return;
    }
    let red = Rgb { r: 255, g: 0, b: 0 };
    canvas.fill_region(Region { left: x, top: y, right: x + w, bottom: y + 1 }, red);
    canvas.fill_region(Region { left: x, top: y + h - 1, right: x + w, bottom: y + h }, red);
    canvas.fill_region(Region { left: x, top: y, right: x + 1, bottom: y + h }, red);
    canvas.fill_region(Region { left: x + w - 1, top: y, right: x + w, bottom: y + h }, red);
}

/// Composes the plot: checks the request against the images, lays out the
/// grid with cells the size of the first image, fills a white canvas, draws
/// the column and row labels, places each image with its label in its cell,
/// and frames the cells in debug mode. Nothing is drawn when a check fails.
pub fn compose_plot(images: &Vec<RgbImage>, request: &PlotRequest, labels: &LabelGlyphs) -> (r: Result<
    RgbImage,
    PlotError,
>)
    ensures
        match plan_for(*request, images@.len() as int, reference_width(images@), reference_height(images@)) {
            Err(e) => r == Err::<RgbImage, PlotError>(e),
            Ok(g) => if g.canvas_width * g.canvas_height <= usize::MAX {
                r matches Ok(canvas) && canvas@ == plot_canvas(g, *request, images@, *labels)
            } else {
                r == Err::<RgbImage, PlotError>(PlotError::ArithmeticOverflow)
            },
        },
{
    if images.len() == 0 {
        return Err(PlotError::NoImages);
    }
    let w = images[0].width();
    let h = images[0].height();
    let g = match plan_plot(request, images.len(), w, h) {
        Ok(g) => g,
        Err(e) => {
            return Err(e);
        },
    };
    let mut canvas = match RgbImage::filled(g.canvas_width, g.canvas_height, Rgb { r: 255, g: 255, b: 255 }) {
        Some(c) => c,
        None => {
            return Err(PlotError::ArithmeticOverflow);
        },
    };
    let ghost blank = canvas@;
    let size = request.label_size;
    proof {
        lemma_columns_ceil(images@.len() as int, g.rows as int);
        assert(g.cols == columns_for(images@.len() as int, g.rows as int));
        assert(g.cols <= g.rows * g.cols) by (nonlinear_arith)
            requires g.rows >= 1;
        assert(images@.len() <= g.rows * g.cols) by (nonlinear_arith)
            requires columns_for(images@.len() as int, g.rows as int) * g.rows >= images@.len(),
                g.cols == columns_for(images@.len() as int, g.rows as int);
    }

    let col_baseline = label_baseline_exec(0, g.top_padding, size);
    let band = Region { left: 0, top: 0, right: g.canvas_width, bottom: g.top_padding };
    let mut k: usize = 0;
    while k < g.cols
        invariant
            g.wf(),
            g.cols <= g.rows * g.cols,
            k <= g.cols,
            band == column_band(g),
            col_baseline == label_baseline(0, g.top_padding as int, size as int),
            size == request.label_size,
            canvas@ == columns_labeled(blank, g, *request, labels.columns@, k as int),
        decreases g.cols - k,
    {
        let (x, _) = g.cell_origin(k);
        let anchor = band_anchor_exec(x, g.cell_width, request.column_label_alignment);
        draw_run(&mut canvas, &labels.columns, k, anchor, col_baseline, size, request.column_label_alignment, band);
        k = k + 1;
    }
    let ghost with_columns = canvas@;

    let row_anchor = band_anchor_exec(0, g.left_padding, request.row_label_alignment);
    let mut r: u32 = 0;
    while r < g.rows
        invariant
            g.wf(),
            r <= g.rows,
            row_anchor == band_anchor(0, g.left_padding as int, request.row_label_alignment),
            size == request.label_size,
            canvas@ == rows_labeled(with_columns, g, *request, labels.rows@, r as int),
        decreases g.rows - r,
    {
        proof {
            lemma_row_in_canvas(g, r as int);
            assert(r * g.cell_height <= u32::MAX * u32::MAX) by (nonlinear_arith)
                requires r <= u32::MAX, g.cell_height <= u32::MAX;
        }
        let top = r as u64 * g.cell_height as u64 + g.top_padding as u64;
        let top = top as u32;
        let baseline = label_baseline_exec(top, g.image_height, size);
        let clip = Region { left: 0, top, right: g.left_padding, bottom: top + g.image_height };
        draw_run(&mut canvas, &labels.rows, r as usize, row_anchor, baseline, size, request.row_label_alignment, clip);
        r = r + 1;
    }
    let ghost with_rows = canvas@;

    let n = images.len();
    let mut i: usize = 0;
    while i < n
        invariant
            g.wf(),
            n == images@.len(),
            n <= g.rows * g.cols,
            i <= n,
            size == request.label_size,
            canvas@ == images_placed(with_rows, g, *request, images@, labels.images@, i as int),
        decreases n - i,
    {
        let (x, y) = g.cell_origin(i);
        let anchor = band_anchor_exec(x, g.cell_width, LabelAlignment::Center);
        let baseline = label_baseline_exec(y - g.top_padding, g.top_padding, size);
        let label_clip = Region { left: x, top: y - g.top_padding, right: x + g.cell_width, bottom: y };
        draw_run(&mut canvas, &labels.images, i, anchor, baseline, size, LabelAlignment::Center, label_clip);
        let area = Region { left: x, top: y, right: x + g.cell_width, bottom: y + g.image_height };
        canvas.paste(&images[i], x, y, area);
        i = i + 1;
    }

    if request.debug_mode {
        let ghost with_images = canvas@;
        let mut r: usize = 0;
        while r < g.rows as usize
            invariant
                g.wf(),
                r <= g.rows,
                canvas@ == cells_framed(with_images, g, r * g.cols),
            decreases g.rows - r,
        {
            let mut c: usize = 0;
            while c < g.cols
                invariant
                    g.wf(),
                    r < g.rows,
                    c <= g.cols,
                    canvas@ == cells_framed(with_images, g, r * g.cols + c),
                decreases g.cols - c,
            {
                proof {
                    lemma_index_split(g.cols as int, c as int, r as int);
                    assert(r * g.cols + c < g.rows * g.cols) by (nonlinear_arith)
                        requires r < g.rows, c < g.cols;
                    lemma_column_in_canvas(g, c as int);
                    lemma_row_in_canvas(g, r as int);
                    assert(r * g.cell_height <= u32::MAX * u32::MAX) by (nonlinear_arith)
                        requires r <= u32::MAX, g.cell_height <= u32::MAX;
                    assert(c * g.cell_width <= u64::MAX * u32::MAX) by (nonlinear_arith)
                        requires c <= u64::MAX, g.cell_width <= u32::MAX;
                }
                let x = (c as u64 * g.cell_width as u64 + g.left_padding as u64) as u32;
                let y = (r as u64 * g.cell_height as u64 + g.top_padding as u64) as u32;
                draw_frame(&mut canvas, x, y, g.cell_width, g.image_height);
                c = c + 1;
            }
            proof {
                assert(r * g.cols + g.cols == (r + 1) * g.cols) by (nonlinear_arith);
            }
            r = r + 1;
        }
    }
    Ok(canvas)
}

/// The canvas size follows from the inputs alone: its width is the image
/// width times the column count plus the row label band, and its height is
/// one label band above each row of images plus one more when any labels are
/// given, else the image height times the row count.
pub proof fn lemma_canvas_size(req: PlotRequest, n: usize, w: u32, h: u32)
    requires
        plan_for(req, n as int, w, h) is Ok,
    ensures
        ({
            let g = plan_for(req, n as int, w, h)->Ok_0;
            &&& g.cols == columns_for(n as int, req.rows as int)
            &&& g.canvas_width == w * g.cols + if any_nonempty(req.row_labels@) {
                req.left_padding as int
            } else {
                0
            }
            &&& labels_present(req) ==> g.canvas_height == (h + req.top_padding) * req.rows + req.top_padding
            &&& !labels_present(req) ==> g.canvas_height == h * req.rows
        }),
{
    lemma_columns_ceil(n as int, req.rows as int);
}

/// A planned geometry is well formed.
pub proof fn lemma_plan_wf(req: PlotRequest, n: usize, w: u32, h: u32)
    requires
        plan_for(req, n as int, w, h) is Ok,
    ensures
        (plan_for(req, n as int, w, h)->Ok_0).wf(),
{
    lemma_columns_ceil(n as int, req.rows as int);
    let top = top_band(req) as int;
    assert(h + top <= (h + top) * req.rows + top) by (nonlinear_arith)
        requires req.rows >= 1, h >= 0, top >= 0;
}

/// The image area of cell `j` is inside the canvas, below the column label
/// band and right of the row label band, and it shares no pixel with the
/// image area or the label band of any other cell.
pub proof fn lemma_cells_apart(g: GridGeometry, i: int, j: int, x: int, y: int)
    requires
        g.wf(),
        0 <= i < g.cell_count(),
        0 <= j < g.cell_count(),
        i != j,
        image_area(g, j).contains(x, y),
    ensures
        !image_area(g, i).contains(x, y),
        !image_label_band(g, i).contains(x, y),
{
    let cols = g.cols as int;
    lemma_cell_in_grid(cols, g.rows as int, i);
    lemma_cell_in_grid(cols, g.rows as int, j);
    lemma_column_in_canvas(g, g.col_of(i));
    lemma_column_in_canvas(g, g.col_of(j));
    lemma_row_in_canvas(g, g.row_of(i));
    lemma_row_in_canvas(g, g.row_of(j));
    vstd::arithmetic::div_mod::lemma_fundamental_div_mod(i, cols);
    vstd::arithmetic::div_mod::lemma_fundamental_div_mod(j, cols);
    let ri = g.row_of(i);
    let rj = g.row_of(j);
    let ci = g.col_of(i);
    let cj = g.col_of(j);
    let cw = g.cell_width as int;
    let ch = g.cell_height as int;
    if ri == rj {
        assert(ci != cj);
        if ci < cj {
            assert(ci * cw + cw <= cj * cw) by (nonlinear_arith)
                requires ci < cj, cw >= 0;
        } else {
            assert(cj * cw + cw <= ci * cw) by (nonlinear_arith)
                requires cj < ci, cw >= 0;
        }
    } else if ri < rj {
        assert(ri * ch + ch <= rj * ch) by (nonlinear_arith)
            requires ri < rj, ch >= 0;
    } else {
        assert(rj * ch + ch <= ri * ch) by (nonlinear_arith)
            requires rj < ri, ch >= 0;
    }
}

/// The image area of cell `j` lies inside the canvas and outside every row
/// and column label band.
pub proof fn lemma_image_area_placement(g: GridGeometry, j: int, x: int, y: int)
    requires
        g.wf(),
        0 <= j < g.cell_count(),
        image_area(g, j).contains(x, y),
    ensures
        0 <= x < g.canvas_width,
        0 <= y < g.canvas_height,
        x >= g.left_padding,
        y >= g.top_padding,
{
    lemma_cell_in_grid(g.cols as int, g.rows as int, j);
    lemma_column_in_canvas(g, g.col_of(j));
    lemma_row_in_canvas(g, g.row_of(j));
    assert(g.col_of(j) * g.cell_width >= 0) by (nonlinear_arith)
        requires g.col_of(j) >= 0;
    assert(g.row_of(j) * g.cell_height >= 0) by (nonlinear_arith)
        requires g.row_of(j) >= 0;
}

proof fn lemma_columns_keep(c: Grid<Rgb>, g: GridGeometry, req: PlotRequest, runs: Seq<Vec<Glyph>>, k: int, x: int, y: int)
    requires
        c.wf(),
        c.contains(x, y),
        y >= g.top_padding,
    ensures
        columns_labeled(c, g, req, runs, k).wf(),
        columns_labeled(c, g, req, runs, k).width == c.width,
        columns_labeled(c, g, req, runs, k).height == c.height,
        columns_labeled(c, g, req, runs, k).at(x, y) == c.at(x, y),
    decreases k,
{
    if k > 0 {
        lemma_columns_keep(c, g, req, runs, k - 1, x, y);
        let run = run_at(runs, k - 1);
        lemma_text_keeps(
            columns_labeled(c, g, req, runs, k - 1),
            run,
            run.len() as int,
            aligned_start(band_anchor(g.origin_x(k - 1), g.cell_width as int, req.column_label_alignment), text_width(run), req.column_label_alignment),
            label_baseline(0, g.top_padding as int, req.label_size as int),
            req.label_size,
            label_color(),
            column_band(g),
            x,
            y,
        );
    }
}

proof fn lemma_rows_keep(c: Grid<Rgb>, g: GridGeometry, req: PlotRequest, runs: Seq<Vec<Glyph>>, k: int, x: int, y: int)
    requires
        c.wf(),
        c.contains(x, y),
        x >= g.left_padding,
    ensures
        rows_labeled(c, g, req, runs, k).wf(),
        rows_labeled(c, g, req, runs, k).width == c.width,
        rows_labeled(c, g, req, runs, k).height == c.height,
        rows_labeled(c, g, req, runs, k).at(x, y) == c.at(x, y),
    decreases k,
{
    if k > 0 {
        lemma_rows_keep(c, g, req, runs, k - 1, x, y);
        let run = run_at(runs, k - 1);
        lemma_text_keeps(
            rows_labeled(c, g, req, runs, k - 1),
            run,
            run.len() as int,
            aligned_start(band_anchor(0, g.left_padding as int, req.row_label_alignment), text_width(run), req.row_label_alignment),
            label_baseline(row_top(g, k - 1), g.image_height as int, req.label_size as int),
            req.label_size,
            label_color(),
            row_band(g, k - 1),
            x,
            y,
        );
    }
}

proof fn lemma_images_keep(
    c: Grid<Rgb>,
    g: GridGeometry,
    req: PlotRequest,
    imgs: Seq<RgbImage>,
    runs: Seq<Vec<Glyph>>,
    k: int,
    j: int,
    x: int,
    y: int,
)
    requires
        g.wf(),
        c.wf(),
        c.contains(x, y),
        k <= j < g.cell_count(),
        image_area(g, j).contains(x, y),
    ensures
        images_placed(c, g, req, imgs, runs, k).wf(),
        images_placed(c, g, req, imgs, runs, k).width == c.width,
        images_placed(c, g, req, imgs, runs, k).height == c.height,
        images_placed(c, g, req, imgs, runs, k).at(x, y) == c.at(x, y),
    decreases k,
{
    if k > 0 {
        let i = k - 1;
        lemma_images_keep(c, g, req, imgs, runs, i, j, x, y);
        lemma_cells_apart(g, i, j, x, y);
        let prev = images_placed(c, g, req, imgs, runs, i);
        let run = run_at(runs, i);
        let start = aligned_start(band_anchor(g.origin_x(i), g.cell_width as int, LabelAlignment::Center), text_width(run), LabelAlignment::Center);
        let baseline = label_baseline(g.origin_y(i) - g.top_padding, g.top_padding as int, req.label_size as int);
        lemma_text_keeps(prev, run, run.len() as int, start, baseline, req.label_size, label_color(), image_label_band(g, i), x, y);
        let labeled = text_drawn(prev, run, band_anchor(g.origin_x(i), g.cell_width as int, LabelAlignment::Center), baseline, req.label_size, label_color(), LabelAlignment::Center, image_label_band(g, i));
        lemma_pasted_keeps(labeled, imgs[i]@, g.origin_x(i), g.origin_y(i), image_area(g, i), x, y);
    }
}

/// Without debug frames, every pixel in the image area of a cell that no
/// image fills keeps the background colour.
pub proof fn lemma_empty_cells_stay_blank(imgs: Seq<RgbImage>, req: PlotRequest, labels: LabelGlyphs, j: int, x: int, y: int)
    requires
        imgs.len() <= usize::MAX,
        plan_for(req, imgs.len() as int, reference_width(imgs), reference_height(imgs)) is Ok,
        !req.debug_mode,
        imgs.len() <= j < (plan_for(req, imgs.len() as int, reference_width(imgs), reference_height(imgs))->Ok_0).cell_count(),
        image_area(plan_for(req, imgs.len() as int, reference_width(imgs), reference_height(imgs))->Ok_0, j).contains(x, y),
    ensures
        plot_canvas(
            plan_for(req, imgs.len() as int, reference_width(imgs), reference_height(imgs))->Ok_0,
            req,
            imgs,
            labels,
        ).at(x, y) == background(),
{
    let g = plan_for(req, imgs.len() as int, reference_width(imgs), reference_height(imgs))->Ok_0;
    lemma_plan_wf(req, imgs.len() as usize, reference_width(imgs), reference_height(imgs));
    lemma_image_area_placement(g, j, x, y);
    let blank = grid_from_fn(g.canvas_width as nat, g.canvas_height as nat, |x: int, y: int| background());
    lemma_grid_from_fn(g.canvas_width as nat, g.canvas_height as nat, |x: int, y: int| background());
    lemma_columns_keep(blank, g, req, labels.columns@, g.cols as int, x, y);
    let with_columns = columns_labeled(blank, g, req, labels.columns@, g.cols as int);
    lemma_rows_keep(with_columns, g, req, labels.rows@, g.rows as int, x, y);
    let with_rows = rows_labeled(with_columns, g, req, labels.rows@, g.rows as int);
    lemma_images_keep(with_rows, g, req, imgs, labels.images@, imgs.len() as int, j, x, y);
}

} // verus!
