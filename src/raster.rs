//! RGB images, RGBA pixels, alpha blending and region updates.
use vstd::prelude::*;

use crate::grid::{Grid, grid_from_fn, lemma_grid_from_fn, lemma_grid_ext, lemma_index_in_bounds, lemma_index_split};

verus! {

/// An opaque 8-bit RGB pixel.
#[derive(Clone, Copy, PartialEq, Eq, Structural, Debug)]
pub struct Rgb {
    pub r: u8,
    pub g: u8,
    pub b: u8,
}

/// An 8-bit RGB pixel with a coverage (alpha) value; `a == 255` is opaque.
#[derive(Clone, Copy, PartialEq, Eq, Structural, Debug)]
pub struct Rgba {
    pub r: u8,
    pub g: u8,
    pub b: u8,
    pub a: u8,
}

/// A half-open rectangle `[left, right) x [top, bottom)` of pixel positions.
#[derive(Clone, Copy, PartialEq, Eq, Structural, Debug)]
pub struct Region {
    pub left: u32,
    pub top: u32,
    pub right: u32,
    pub bottom: u32,
}

impl Region {
    pub open spec fn contains(self, x: int, y: int) -> bool {
        self.left <= x < self.right && self.top <= y < self.bottom
    }
}

/// `dst * (1 - a) + src * a` on one channel, with `a = alpha / 255`, rounded
/// to the nearest integer.
pub open spec fn blend_value(dst: u8, src: u8, alpha: u8) -> u8 {
    ((dst * (255 - alpha) + src * alpha + 127) / 255) as u8
}

pub open spec fn blend_rgb(dst: Rgb, src: Rgba) -> Rgb {
    Rgb {
        r: blend_value(dst.r, src.r, src.a),
        g: blend_value(dst.g, src.g, src.a),
        b: blend_value(dst.b, src.b, src.a),
    }
}

/// Blends one channel of `src` over `dst` with coverage `alpha`.
pub fn blend_channel(dst: u8, src: u8, alpha: u8) -> (r: u8)
    ensures
        r == blend_value(dst, src, alpha),
        alpha == 0 ==> r == dst,
        alpha == 255 ==> r == src,
{
    let d = dst as u32;
    let s = src as u32;
    let a = alpha as u32;
    assert(d * (255 - a) + s * a <= 255 * 255) by (nonlinear_arith)
        requires d <= 255, s <= 255, a <= 255;
    let sum = d * (255 - a) + s * a + 127;
    assert(sum / 255 <= 255) by (nonlinear_arith)
        requires sum <= 255 * 255 + 127;
    let r = (sum / 255) as u8;
    proof {
        if a == 0 {
            assert(sum == d * 255 + 127) by (nonlinear_arith)
                requires sum == d * (255 - a) + s * a + 127, a == 0;
            vstd::arithmetic::div_mod::lemma_fundamental_div_mod_converse(sum as int, 255, d as int, 127);
        }
        if a == 255 {
            assert(sum == s * 255 + 127) by (nonlinear_arith)
                requires sum == d * (255 - a) + s * a + 127, a == 255;
            vstd::arithmetic::div_mod::lemma_fundamental_div_mod_converse(sum as int, 255, s as int, 127);
        }
    }
    r
}

/// Blends `src` over `dst`, channel by channel, with `src.a` as coverage.
pub fn blend_pixel(dst: Rgb, src: Rgba) -> (r: Rgb)
    ensures
        r == blend_rgb(dst, src),
        src.a == 0 ==> r == dst,
        src.a == 255 ==> r == (Rgb { r: src.r, g: src.g, b: src.b }),
{
    Rgb {
        r: blend_channel(dst.r, src.r, src.a),
        g: blend_channel(dst.g, src.g, src.a),
        b: blend_channel(dst.b, src.b, src.a),
    }
}

/// The grid that agrees with `c` outside `p` and holds `g(x, y, c.at(x, y))`
/// at each position `(x, y)` inside `p`.
pub open spec fn map_where(
    c: Grid<Rgb>,
    p: spec_fn(int, int) -> bool,
    g: spec_fn(int, int, Rgb) -> Rgb,
) -> Grid<Rgb> {
    grid_from_fn(c.width, c.height, |x: int, y: int| if p(x, y) { g(x, y, c.at(x, y)) } else { c.at(x, y) })
}

/// The positions of `r` that come before `(x, y)` in row-major order.
pub open spec fn region_prefix(r: Region, x: int, y: int) -> spec_fn(int, int) -> bool {
    |px: int, py: int| r.contains(px, py) && (py < y || (py == y && px < x))
}

pub open spec fn region_pred(r: Region) -> spec_fn(int, int) -> bool {
    |px: int, py: int| r.contains(px, py)
}

/// `c` with the cell at `(x, y)` replaced by `v`.
pub open spec fn set_pixel(c: Grid<Rgb>, x: int, y: int, v: Rgb) -> Grid<Rgb> {
    Grid { width: c.width, height: c.height, cells: c.cells.update(y * c.width + x, v) }
}

pub proof fn lemma_set_pixel(c: Grid<Rgb>, x: int, y: int, v: Rgb)
    requires
        c.wf(),
        c.contains(x, y),
    ensures
        set_pixel(c, x, y, v).wf(),
        forall|px: int, py: int|
            c.contains(px, py) ==> #[trigger] set_pixel(c, x, y, v).at(px, py) == if px == x && py
                == y {
                v
            } else {
                c.at(px, py)
            },
{
    let s = set_pixel(c, x, y, v);
    let w = c.width as int;
    lemma_index_in_bounds(w, c.height as int, x, y);
    assert forall|px: int, py: int| c.contains(px, py) implies #[trigger] s.at(px, py) == if px
        == x && py == y {
        v
    } else {
        c.at(px, py)
    } by {
        lemma_index_in_bounds(w, c.height as int, px, py);
        lemma_index_split(w, px, py);
        lemma_index_split(w, x, y);
    }
}

pub proof fn lemma_map_where(c: Grid<Rgb>, p: spec_fn(int, int) -> bool, g: spec_fn(int, int, Rgb) -> Rgb)
    ensures
        map_where(c, p, g).wf(),
        map_where(c, p, g).width == c.width,
        map_where(c, p, g).height == c.height,
        forall|x: int, y: int|
            c.contains(x, y) ==> #[trigger] map_where(c, p, g).at(x, y) == if p(x, y) {
                g(x, y, c.at(x, y))
            } else {
                c.at(x, y)
            },
{
    lemma_grid_from_fn(
        c.width,
        c.height,
        |x: int, y: int| if p(x, y) { g(x, y, c.at(x, y)) } else { c.at(x, y) },
    );
}

/// `map_where` depends on the predicate only through its values inside the grid.
pub proof fn lemma_map_where_same(
    c: Grid<Rgb>,
    p1: spec_fn(int, int) -> bool,
    p2: spec_fn(int, int) -> bool,
    g: spec_fn(int, int, Rgb) -> Rgb,
)
    requires
        forall|x: int, y: int| c.contains(x, y) ==> p1(x, y) == p2(x, y),
    ensures
        map_where(c, p1, g) == map_where(c, p2, g),
{
    lemma_map_where(c, p1, g);
    lemma_map_where(c, p2, g);
    lemma_grid_ext(map_where(c, p1, g), map_where(c, p2, g));
}

/// Writing the next position of a row-major walk over `r` extends the prefix.
pub proof fn lemma_region_step(
    c: Grid<Rgb>,
    r: Region,
    g: spec_fn(int, int, Rgb) -> Rgb,
    x: int,
    y: int,
)
    requires
        c.wf(),
        c.contains(x, y),
        r.contains(x, y),
    ensures
        set_pixel(map_where(c, region_prefix(r, x, y), g), x, y, g(x, y, c.at(x, y)))
            == map_where(c, region_prefix(r, x + 1, y), g),
{
    let before = map_where(c, region_prefix(r, x, y), g);
    let after = map_where(c, region_prefix(r, x + 1, y), g);
    lemma_map_where(c, region_prefix(r, x, y), g);
    lemma_map_where(c, region_prefix(r, x + 1, y), g);
    lemma_set_pixel(before, x, y, g(x, y, c.at(x, y)));
    lemma_grid_ext(set_pixel(before, x, y, g(x, y, c.at(x, y))), after);
}

/// At the end of a row the prefix is the start of the next row.
pub proof fn lemma_region_row_end(c: Grid<Rgb>, r: Region, g: spec_fn(int, int, Rgb) -> Rgb, y: int)
    requires
        r.left <= r.right,
    ensures
        map_where(c, region_prefix(r, r.right as int, y), g) == map_where(
            c,
            region_prefix(r, r.left as int, y + 1),
            g,
        ),
{
    lemma_map_where_same(c, region_prefix(r, r.right as int, y), region_prefix(r, r.left as int, y + 1), g);
}

/// Once every row is done the prefix is the whole region.
pub proof fn lemma_region_done(c: Grid<Rgb>, r: Region, g: spec_fn(int, int, Rgb) -> Rgb)
    ensures
        map_where(c, region_prefix(r, r.left as int, r.bottom as int), g) == map_where(
            c,
            region_pred(r),
            g,
        ),
        map_where(c, region_prefix(r, r.left as int, r.top as int), g) == c || !c.wf(),
{
    lemma_map_where_same(c, region_prefix(r, r.left as int, r.bottom as int), region_pred(r), g);
    lemma_map_where(c, region_prefix(r, r.left as int, r.top as int), g);
    if c.wf() {
        lemma_grid_ext(map_where(c, region_prefix(r, r.left as int, r.top as int), g), c);
    }
}

/// An RGB image of `width x height` pixels stored row by row.
pub struct RgbImage {
    width: u32,
    height: u32,
    pixels: Vec<Rgb>,
}

impl View for RgbImage {
    type V = Grid<Rgb>;

    closed spec fn view(&self) -> Grid<Rgb> {
        Grid { width: self.width as nat, height: self.height as nat, cells: self.pixels@ }
    }
}

impl RgbImage {
    #[verifier::type_invariant]
    spec fn inv(&self) -> bool {
        self.pixels@.len() == self.width * self.height
    }

    /// An image of the given size with every pixel set to `color`; `None` when
    /// the pixel count does not fit in memory addresses.
    pub fn filled(width: u32, height: u32, color: Rgb) -> (r: Option<RgbImage>)
        ensures
            r.is_some() <==> width * height <= usize::MAX,
            r matches Some(img) ==> img@ == grid_from_fn(
                width as nat,
                height as nat,
                |x: int, y: int| color,
            ),
    {
        let n = match (width as usize).checked_mul(height as usize) {
            Some(n) => n,
            None => {
                return None;
            },
        };
        let mut pixels: Vec<Rgb> = Vec::new();
        let mut i: usize = 0;
        while i < n
            invariant
                i <= n,
                pixels@.len() == i,
                forall|j: int| 0 <= j < i ==> pixels@[j] == color,
            decreases n - i,
        {
            pixels.push(color);
            i = i + 1;
        }
        let img = RgbImage { width, height, pixels };
        proof {
            let f = |x: int, y: int| color;
            lemma_grid_from_fn(width as nat, height as nat, f);
            assert forall|x: int, y: int| img@.contains(x, y) implies #[trigger] img@.at(x, y)
                == grid_from_fn(width as nat, height as nat, f).at(x, y) by {
                lemma_index_in_bounds(width as int, height as int, x, y);
            }
            lemma_grid_ext(img@, grid_from_fn(width as nat, height as nat, f));
        }
        Some(img)
    }

    /// An image from its pixels in row-major order; `None` unless there are
    /// exactly `width * height` of them.
    pub fn from_pixels(width: u32, height: u32, pixels: Vec<Rgb>) -> (r: Option<RgbImage>)
        ensures
            r.is_some() <==> pixels@.len() == width * height,
            r matches Some(img) ==> img@ == (Grid { width: width as nat, height: height as nat, cells: pixels@ }),
    {
        let len = pixels.len();
        let n = match (width as usize).checked_mul(height as usize) {
            Some(n) => n,
            None => {
                return None;
            },
        };
        if len != n {
            return None;
        }
        Some(RgbImage { width, height, pixels })
    }

    pub fn width(&self) -> (r: u32)
        ensures
            r == self@.width,
            self@.wf(),
    {
        proof {
            use_type_invariant(self);
        }
        self.width
    }

    pub fn height(&self) -> (r: u32)
        ensures
            r == self@.height,
            self@.wf(),
    {
        proof {
            use_type_invariant(self);
        }
        self.height
    }

    /// The pixels in row-major order.
    pub fn pixels(&self) -> (r: &Vec<Rgb>)
        ensures
            r@ == self@.cells,
    {
        &self.pixels
    }

    pub fn get_pixel(&self, x: u32, y: u32) -> (r: Rgb)
        requires
            self@.contains(x as int, y as int),
        ensures
            r == self@.at(x as int, y as int),
    {
        proof {
            use_type_invariant(self);
            lemma_index_in_bounds(self.width as int, self.height as int, x as int, y as int);
        }
        let n = self.pixels.len();
        self.pixels[y as usize * self.width as usize + x as usize]
    }

    pub fn put_pixel(&mut self, x: u32, y: u32, v: Rgb)
        requires
            old(self)@.contains(x as int, y as int),
        ensures
            final(self)@ == set_pixel(old(self)@, x as int, y as int, v),
        no_unwind
    {
        proof {
            use_type_invariant(&*self);
            lemma_index_in_bounds(self.width as int, self.height as int, x as int, y as int);
        }
        let n = self.pixels.len();
        let i = y as usize * self.width as usize + x as usize;
        self.pixels[i] = v;
    }
}


/// An RGBA raster placed on a canvas by the caller. Positions past the end of
/// `pixels` read as fully transparent.
#[derive(Clone, Debug)]
pub struct RgbaBitmap {
    pub width: u32,
    pub height: u32,
    pub pixels: Vec<Rgba>,
}

impl View for RgbaBitmap {
    type V = Grid<Rgba>;

    open spec fn view(&self) -> Grid<Rgba> {
        Grid { width: self.width as nat, height: self.height as nat, cells: self.pixels@ }
    }
}

pub open spec fn transparent() -> Rgba {
    Rgba { r: 0, g: 0, b: 0, a: 0 }
}

/// The pixel of `l` at `(x, y)`, transparent where `l` holds none.
pub open spec fn layer_pixel(l: Grid<Rgba>, x: int, y: int) -> Rgba {
    if l.contains(x, y) && y * l.width + x < l.cells.len() {
        l.at(x, y)
    } else {
        transparent()
    }
}

impl RgbaBitmap {
    pub fn pixel(&self, x: u32, y: u32) -> (r: Rgba)
        ensures
            r == layer_pixel(self@, x as int, y as int),
    {
        if x >= self.width || y >= self.height {
            return Rgba { r: 0, g: 0, b: 0, a: 0 };
        }
        proof {
            lemma_index_in_bounds(self.width as int, self.height as int, x as int, y as int);
            assert((y as int) * (self.width as int) <= (u32::MAX as int) * (u32::MAX as int))
                by (nonlinear_arith)
                requires y <= u32::MAX, self.width <= u32::MAX;
        }
        let i = y as u64 * self.width as u64 + x as u64;
        if i < self.pixels.len() as u64 {
            self.pixels[i as usize]
        } else {
            Rgba { r: 0, g: 0, b: 0, a: 0 }
        }
    }
}

/// `c` with every position inside `r` set to `color`.
pub open spec fn filled_region(c: Grid<Rgb>, r: Region, color: Rgb) -> Grid<Rgb> {
    map_where(c, region_pred(r), |x: int, y: int, p: Rgb| color)
}

/// Where `src` placed with its top-left corner at `(ox, oy)` lands inside `cell`.
pub open spec fn paste_pred(src: Grid<Rgb>, ox: int, oy: int, cell: Region) -> spec_fn(int, int) -> bool {
    |x: int, y: int| cell.contains(x, y) && ox <= x < ox + src.width && oy <= y < oy + src.height
}

/// `c` with `src` copied to `(ox, oy)`, clipped to `cell`.
pub open spec fn pasted(c: Grid<Rgb>, src: Grid<Rgb>, ox: int, oy: int, cell: Region) -> Grid<Rgb> {
    map_where(c, paste_pred(src, ox, oy, cell), |x: int, y: int, p: Rgb| src.at(x - ox, y - oy))
}

/// The length of `n` source pixels drawn at `num / den` times their size.
pub open spec fn scaled_len(n: int, num: int, den: int) -> int {
    if den == 0 {
        0
    } else {
        n * num / den
    }
}

/// The source position that nearest-neighbour sampling at scale `num / den`
/// reads for target position `v`.
pub open spec fn sample(v: int, num: int, den: int) -> int {
    if num == 0 {
        0
    } else {
        v * den / num
    }
}

pub open spec fn scaled_pixel(l: Grid<Rgba>, num: int, den: int, x: int, y: int) -> Rgba {
    layer_pixel(l, sample(x, num, den), sample(y, num, den))
}

pub open spec fn layer_pred(l: Grid<Rgba>, ox: int, oy: int, num: int, den: int, clip: Region) -> spec_fn(int, int) -> bool {
    |x: int, y: int|
        clip.contains(x, y) && ox <= x < ox + scaled_len(l.width as int, num, den) && oy <= y < oy
            + scaled_len(l.height as int, num, den)
}

/// `c` with `l`, scaled by `num / den`, blended over it at `(ox, oy)` and
/// clipped to `clip`.
pub open spec fn blended(c: Grid<Rgb>, l: Grid<Rgba>, ox: int, oy: int, num: int, den: int, clip: Region) -> Grid<Rgb> {
    map_where(
        c,
        layer_pred(l, ox, oy, num, den, clip),
        |x: int, y: int, p: Rgb| blend_rgb(p, scaled_pixel(l, num, den, x - ox, y - oy)),
    )
}

pub open spec fn min_int(a: int, b: int) -> int {
    if a < b { a } else { b }
}

pub open spec fn max_int(a: int, b: int) -> int {
    if a < b { b } else { a }
}

/// The part of `[lo, hi)` that lies inside `[0, limit)`, as `u32` bounds with
/// `left <= right`.
fn clamp_span(lo: i128, hi: i128, limit: u32) -> (r: (u32, u32))
    ensures
        r.0 <= r.1 <= limit,
        r.0 == max_int(0, min_int(lo as int, limit as int)),
        r.1 == max_int(r.0 as int, min_int(hi as int, limit as int)),
{
    let a: i128 = if lo < 0 { 0 } else if lo > limit as i128 { limit as i128 } else { lo };
    let b: i128 = if hi < a { a } else if hi > limit as i128 { limit as i128 } else { hi };
    (a as u32, b as u32)
}

/// Blending changes no pixel outside the clip region.
pub proof fn lemma_blended_keeps(c: Grid<Rgb>, l: Grid<Rgba>, ox: int, oy: int, num: int, den: int, clip: Region, x: int, y: int)
    requires
        c.wf(),
        c.contains(x, y),
        !clip.contains(x, y),
    ensures
        blended(c, l, ox, oy, num, den, clip).wf(),
        blended(c, l, ox, oy, num, den, clip).width == c.width,
        blended(c, l, ox, oy, num, den, clip).height == c.height,
        blended(c, l, ox, oy, num, den, clip).at(x, y) == c.at(x, y),
{
    lemma_map_where(
        c,
        layer_pred(l, ox, oy, num, den, clip),
        |x: int, y: int, p: Rgb| blend_rgb(p, scaled_pixel(l, num, den, x - ox, y - oy)),
    );
}

/// Pasting changes no pixel outside the cell.
pub proof fn lemma_pasted_keeps(c: Grid<Rgb>, src: Grid<Rgb>, ox: int, oy: int, cell: Region, x: int, y: int)
    requires
        c.wf(),
        c.contains(x, y),
        !cell.contains(x, y),
    ensures
        pasted(c, src, ox, oy, cell).wf(),
        pasted(c, src, ox, oy, cell).width == c.width,
        pasted(c, src, ox, oy, cell).height == c.height,
        pasted(c, src, ox, oy, cell).at(x, y) == c.at(x, y),
{
    lemma_map_where(c, paste_pred(src, ox, oy, cell), |x: int, y: int, p: Rgb| src.at(x - ox, y - oy));
}

impl RgbImage {
    /// Sets every pixel of the image that lies in `r` to `color`.
    pub fn fill_region(&mut self, r: Region, color: Rgb)
        ensures
            final(self)@ == filled_region(old(self)@, r, color),
    {
        let w = self.width();
        let h = self.height();
        let (x0, x1) = clamp_span(r.left as i128, r.right as i128, w);
        let (y0, y1) = clamp_span(r.top as i128, r.bottom as i128, h);
        let rc = Region { left: x0, top: y0, right: x1, bottom: y1 };
        let ghost c = self@;
        let ghost g = |x: int, y: int, p: Rgb| color;
        proof {
            lemma_region_done(c, rc, g);
        }
        let mut y = y0;
        while y < y1
            invariant
                y0 <= y <= y1 <= h,
                x0 <= x1 <= w,
                c.wf(),
                c.width == w,
                c.height == h,
                rc == (Region { left: x0, top: y0, right: x1, bottom: y1 }),
                forall|px: int, py: int, v: Rgb| #[trigger] g(px, py, v) == color,
                self@ == map_where(c, region_prefix(rc, x0 as int, y as int), g),
            decreases y1 - y,
        {
            let mut x = x0;
            while x < x1
                invariant
                    y0 <= y < y1 <= h,
                    x0 <= x <= x1 <= w,
                    c.wf(),
                    c.width == w,
                    c.height == h,
                    rc == (Region { left: x0, top: y0, right: x1, bottom: y1 }),
                    forall|px: int, py: int, v: Rgb| #[trigger] g(px, py, v) == color,
                    self@ == map_where(c, region_prefix(rc, x as int, y as int), g),
                decreases x1 - x,
            {
                proof {
                    lemma_region_step(c, rc, g, x as int, y as int);
                }
                self.put_pixel(x, y, color);
                x = x + 1;
            }
            proof {
                lemma_region_row_end(c, rc, g, y as int);
            }
            y = y + 1;
        }
        proof {
            lemma_region_done(c, rc, g);
            lemma_map_where_same(c, region_pred(rc), region_pred(r), g);
        }
    }
}


impl RgbImage {
    /// Copies `src` so that its top-left pixel lands on `(ox, oy)`, writing
    /// only positions inside `cell` and inside this image.
    pub fn paste(&mut self, src: &RgbImage, ox: u32, oy: u32, cell: Region)
        ensures
            final(self)@ == pasted(old(self)@, src@, ox as int, oy as int, cell),
            final(self)@.width == old(self)@.width,
            final(self)@.height == old(self)@.height,
            forall|x: int, y: int|
                old(self)@.contains(x, y) && !cell.contains(x, y) ==> #[trigger] final(self)@.at(x, y)
                    == old(self)@.at(x, y),
    {
        let w = self.width();
        let h = self.height();
        let sw = src.width();
        let sh = src.height();
        let lo_x: i128 = if (cell.left as i128) < ox as i128 { ox as i128 } else { cell.left as i128 };
        let hi_x: i128 = if (cell.right as i128) < ox as i128 + sw as i128 { cell.right as i128 } else { ox as i128 + sw as i128 };
        let lo_y: i128 = if (cell.top as i128) < oy as i128 { oy as i128 } else { cell.top as i128 };
        let hi_y: i128 = if (cell.bottom as i128) < oy as i128 + sh as i128 { cell.bottom as i128 } else { oy as i128 + sh as i128 };
        let (x0, x1) = clamp_span(lo_x, hi_x, w);
        let (y0, y1) = clamp_span(lo_y, hi_y, h);
        let rc = Region { left: x0, top: y0, right: x1, bottom: y1 };
        let ghost c = self@;
        let ghost s = src@;
        let ghost g = |x: int, y: int, p: Rgb| s.at(x - ox, y - oy);
        proof {
            lemma_region_done(c, rc, g);
        }
        let mut y = y0;
        while y < y1
            invariant
                y0 <= y <= y1 <= h,
                x0 <= x1 <= w,
                c.wf(),
                c.width == w,
                c.height == h,
                s == src@,
                s.width == sw,
                s.height == sh,
                x0 < x1 ==> ox <= x0 && x1 <= ox + sw,
                y0 < y1 ==> oy <= y0 && y1 <= oy + sh,
                rc == (Region { left: x0, top: y0, right: x1, bottom: y1 }),
                forall|px: int, py: int, v: Rgb| #[trigger] g(px, py, v) == s.at(px - ox, py - oy),
                self@ == map_where(c, region_prefix(rc, x0 as int, y as int), g),
            decreases y1 - y,
        {
            let mut x = x0;
            while x < x1
                invariant
                    y0 <= y < y1 <= h,
                    x0 <= x <= x1 <= w,
                    c.wf(),
                    c.width == w,
                    c.height == h,
                    s == src@,
                    s.width == sw,
                    s.height == sh,
                    x0 < x1 ==> ox <= x0 && x1 <= ox + sw,
                    y0 < y1 ==> oy <= y0 && y1 <= oy + sh,
                    rc == (Region { left: x0, top: y0, right: x1, bottom: y1 }),
                    forall|px: int, py: int, v: Rgb| #[trigger] g(px, py, v) == s.at(px - ox, py - oy),
                    self@ == map_where(c, region_prefix(rc, x as int, y as int), g),
                decreases x1 - x,
            {
                let v = src.get_pixel(x - ox, y - oy);
                proof {
                    lemma_region_step(c, rc, g, x as int, y as int);
                }
                self.put_pixel(x, y, v);
                x = x + 1;
            }
            proof {
                lemma_region_row_end(c, rc, g, y as int);
            }
            y = y + 1;
        }
        proof {
            lemma_region_done(c, rc, g);
            lemma_map_where_same(c, region_pred(rc), paste_pred(s, ox as int, oy as int, cell), g);
            lemma_map_where(c, paste_pred(s, ox as int, oy as int, cell), g);
        }
    }

    /// Blends `layer`, scaled by `num / den` with nearest-neighbour sampling,
    /// over this image with its top-left pixel on `(ox, oy)`, touching only
    /// positions inside `clip` and inside this image.
    pub fn blend_layer(&mut self, layer: &RgbaBitmap, ox: i64, oy: i64, num: u32, den: u32, clip: Region)
        ensures
            final(self)@ == blended(old(self)@, layer@, ox as int, oy as int, num as int, den as int, clip),
    {
        let w = self.width();
        let h = self.height();
        let ghost l = layer@;
        let ghost c = self@;
        proof {
            assert(layer.width as int * num as int <= u32::MAX as int * u32::MAX as int) by (nonlinear_arith)
                requires layer.width <= u32::MAX, num <= u32::MAX;
            assert(layer.height as int * num as int <= u32::MAX as int * u32::MAX as int) by (nonlinear_arith)
                requires layer.height <= u32::MAX, num <= u32::MAX;
        }
        let ext_w: u128 = if den == 0 { 0 } else { layer.width as u128 * num as u128 / den as u128 };
        let ext_h: u128 = if den == 0 { 0 } else { layer.height as u128 * num as u128 / den as u128 };
        proof {
            if den > 0 {
                vstd::arithmetic::div_mod::lemma_div_is_ordered_by_denominator(layer.width as int * num as int, 1, den as int);
                vstd::arithmetic::div_mod::lemma_div_is_ordered_by_denominator(layer.height as int * num as int, 1, den as int);
            }
            assert(ext_w == scaled_len(l.width as int, num as int, den as int));
            assert(ext_h == scaled_len(l.height as int, num as int, den as int));
        }
        let lo_x: i128 = if (clip.left as i128) < ox as i128 { ox as i128 } else { clip.left as i128 };
        let hi_x: i128 = if (clip.right as i128) < ox as i128 + ext_w as i128 { clip.right as i128 } else { ox as i128 + ext_w as i128 };
        let lo_y: i128 = if (clip.top as i128) < oy as i128 { oy as i128 } else { clip.top as i128 };
        let hi_y: i128 = if (clip.bottom as i128) < oy as i128 + ext_h as i128 { clip.bottom as i128 } else { oy as i128 + ext_h as i128 };
        let (x0, x1) = clamp_span(lo_x, hi_x, w);
        let (y0, y1) = clamp_span(lo_y, hi_y, h);
        let rc = Region { left: x0, top: y0, right: x1, bottom: y1 };
        let ghost g = |x: int, y: int, p: Rgb| blend_rgb(p, scaled_pixel(l, num as int, den as int, x - ox, y - oy));
        proof {
            lemma_region_done(c, rc, g);
        }
        let mut y = y0;
        while y < y1
            invariant
                y0 <= y <= y1 <= h,
                x0 <= x1 <= w,
                c.wf(),
                c.width == w,
                c.height == h,
                l == layer@,
                ext_w <= u32::MAX as int * u32::MAX as int,
                ext_h <= u32::MAX as int * u32::MAX as int,
                x0 < x1 ==> ox <= x0 && x1 <= ox + ext_w,
                y0 < y1 ==> oy <= y0 && y1 <= oy + ext_h,
                rc == (Region { left: x0, top: y0, right: x1, bottom: y1 }),
                forall|px: int, py: int, v: Rgb|
                    #[trigger] g(px, py, v) == blend_rgb(v, scaled_pixel(l, num as int, den as int, px - ox, py - oy)),
                self@ == map_where(c, region_prefix(rc, x0 as int, y as int), g),
            decreases y1 - y,
        {
            let mut x = x0;
            while x < x1
                invariant
                    y0 <= y < y1 <= h,
                    x0 <= x <= x1 <= w,
                    c.wf(),
                    c.width == w,
                    c.height == h,
                    l == layer@,
                    ext_w <= u32::MAX as int * u32::MAX as int,
                    ext_h <= u32::MAX as int * u32::MAX as int,
                    x0 < x1 ==> ox <= x0 && x1 <= ox + ext_w,
                    y0 < y1 ==> oy <= y0 && y1 <= oy + ext_h,
                    rc == (Region { left: x0, top: y0, right: x1, bottom: y1 }),
                    forall|px: int, py: int, v: Rgb|
                        #[trigger] g(px, py, v) == blend_rgb(v, scaled_pixel(l, num as int, den as int, px - ox, py - oy)),
                    self@ == map_where(c, region_prefix(rc, x as int, y as int), g),
                decreases x1 - x,
            {
                let lx = (x as i128 - ox as i128) as u128;
                let ly = (y as i128 - oy as i128) as u128;
                proof {
                    assert(lx * den <= u32::MAX as int * u32::MAX as int * u32::MAX as int) by (nonlinear_arith)
                        requires lx <= u32::MAX as int * u32::MAX as int, den <= u32::MAX;
                    assert(ly * den <= u32::MAX as int * u32::MAX as int * u32::MAX as int) by (nonlinear_arith)
                        requires ly <= u32::MAX as int * u32::MAX as int, den <= u32::MAX;
                }
                let sx: u128 = if num == 0 { 0 } else { lx * den as u128 / num as u128 };
                let sy: u128 = if num == 0 { 0 } else { ly * den as u128 / num as u128 };
                let src = if sx < layer.width as u128 && sy < layer.height as u128 {
                    layer.pixel(sx as u32, sy as u32)
                } else {
                    Rgba { r: 0, g: 0, b: 0, a: 0 }
                };
                let cur = self.get_pixel(x, y);
                let v = blend_pixel(cur, src);
                proof {
                    lemma_map_where(c, region_prefix(rc, x as int, y as int), g);
                    lemma_region_step(c, rc, g, x as int, y as int);
                }
                self.put_pixel(x, y, v);
                x = x + 1;
            }
            proof {
                lemma_region_row_end(c, rc, g, y as int);
            }
            y = y + 1;
        }
        proof {
            lemma_region_done(c, rc, g);
            lemma_map_where_same(c, region_pred(rc), layer_pred(l, ox as int, oy as int, num as int, den as int, clip), g);
        }
    }
}

} // verus!
