//! Single-line text drawing from pre-rasterized glyphs.
use vstd::prelude::*;

use crate::grid::Grid;
use crate::numeric::{clamp_i64, saturate_to_i64};
use crate::raster::{blended, lemma_blended_keeps, Region, Rgb, Rgba, RgbImage, RgbaBitmap};

verus! {

/// Where a text run stands relative to its anchor column.
#[derive(Clone, Copy, PartialEq, Eq, Structural, Debug)]
pub enum LabelAlignment {
    /// The text begins at the anchor.
    Start,
    /// The text is centered on the anchor.
    Center,
    /// The text ends at the anchor.
    End,
}

/// What `str::to_lowercase` makes of a string: every character replaced by
/// its Unicode lowercase mapping.
pub uninterp spec fn lowercase_of(s: Seq<char>) -> Seq<char>;

/// Relies on `str::to_lowercase`, whose result depends on the characters of
/// its argument alone.
#[verifier::external_body]
fn to_lowercase(s: &str) -> (r: String)
    ensures
        r@ == lowercase_of(s@),
{
    s.to_lowercase()
}

/// The alignment a (lowercase) name stands for.
pub open spec fn alignment_named(s: Seq<char>) -> Option<LabelAlignment> {
    if s == seq!['s', 't', 'a', 'r', 't'] {
        Some(LabelAlignment::Start)
    } else if s == seq!['c', 'e', 'n', 't', 'e', 'r'] {
        Some(LabelAlignment::Center)
    } else if s == seq!['e', 'n', 'd'] {
        Some(LabelAlignment::End)
    } else {
        None
    }
}

/// Whether two strings hold the same characters.
fn same_text(a: &str, b: &str) -> (r: bool)
    ensures
        r == (a@ == b@),
{
    let n = a.unicode_len();
    if n != b.unicode_len() {
        return false;
    }
    let mut i: usize = 0;
    while i < n
        invariant
            n == a@.len(),
            n == b@.len(),
            i <= n,
            forall|j: int| 0 <= j < i ==> a@[j] == b@[j],
        decreases n - i,
    {
        if a.get_char(i) != b.get_char(i) {
            return false;
        }
        i = i + 1;
    }
    assert(a@ =~= b@);
    true
}

/// The alignment named by `s`, which is already lowercase: `start`, `center`
/// or `end`.
pub fn alignment_from_lowercase(s: &str) -> (r: Option<LabelAlignment>)
    ensures
        r == alignment_named(s@),
{
    proof {
        reveal_strlit("start");
        reveal_strlit("center");
        reveal_strlit("end");
    }
    if same_text(s, "start") {
        assert("start"@ =~= seq!['s', 't', 'a', 'r', 't']);
        Some(LabelAlignment::Start)
    } else if same_text(s, "center") {
        assert("center"@ =~= seq!['c', 'e', 'n', 't', 'e', 'r']);
        assert(s@ != seq!['s', 't', 'a', 'r', 't']);
        Some(LabelAlignment::Center)
    } else if same_text(s, "end") {
        assert("end"@ =~= seq!['e', 'n', 'd']);
        assert(s@ != seq!['s', 't', 'a', 'r', 't']);
        assert(s@ != seq!['c', 'e', 'n', 't', 'e', 'r']);
        Some(LabelAlignment::End)
    } else {
        assert("start"@ =~= seq!['s', 't', 'a', 'r', 't']);
        assert("center"@ =~= seq!['c', 'e', 'n', 't', 'e', 'r']);
        assert("end"@ =~= seq!['e', 'n', 'd']);
        None
    }
}

/// The alignment named by `s` in any letter case; `None` for any other text.
pub fn parse_alignment(s: &str) -> (r: Option<LabelAlignment>)
    ensures
        r == alignment_named(lowercase_of(s@)),
{
    let lower = to_lowercase(s);
    alignment_from_lowercase(lower.as_str())
}

/// Which of two fonts supplies a character's glyph.
#[derive(Clone, Copy, PartialEq, Eq, Structural, Debug)]
pub enum FontChoice {
    Primary,
    Fallback,
}

/// The font a character is drawn from: the primary font when it has a real
/// outline for the character, the fallback (emoji) font otherwise.
pub fn resolve_font(primary_has_outline: bool) -> (r: FontChoice)
    ensures
        r == if primary_has_outline { FontChoice::Primary } else { FontChoice::Fallback },
{
    if primary_has_outline {
        FontChoice::Primary
    } else {
        FontChoice::Fallback
    }
}

/// Per-pixel coverage of a glyph outline, `0` (empty) to `255` (full), row by
/// row. Positions past the end of `alpha` count as empty.
#[derive(Clone, Debug)]
pub struct AlphaMask {
    pub width: u32,
    pub height: u32,
    pub alpha: Vec<u8>,
}

impl View for AlphaMask {
    type V = Grid<u8>;

    open spec fn view(&self) -> Grid<u8> {
        Grid { width: self.width as nat, height: self.height as nat, cells: self.alpha@ }
    }
}

/// A rasterized outline, with its top-left corner at `(left, top)` from the
/// pen position on the baseline.
#[derive(Clone, Debug)]
pub struct OutlineRaster {
    pub left: i32,
    pub top: i32,
    pub mask: AlphaMask,
}

/// A colour glyph image stored at `native_size` pixels per em, with its
/// top-left corner at `(left, top)` from the pen position on the baseline,
/// in drawn pixels.
#[derive(Clone, Debug)]
pub struct ColorRaster {
    pub left: i32,
    pub top: i32,
    pub native_size: u32,
    pub bitmap: RgbaBitmap,
}

/// One positioned character of a text run: how far it moves the pen, and
/// what it draws.
#[derive(Clone, Debug)]
pub struct Glyph {
    pub advance: u32,
    pub outline: Option<OutlineRaster>,
    pub color: Option<ColorRaster>,
}

/// `mask` as a layer of `color` with the mask's coverage as alpha.
pub open spec fn tinted(mask: Grid<u8>, color: Rgb) -> Grid<Rgba> {
    Grid {
        width: mask.width,
        height: mask.height,
        cells: Seq::new(mask.cells.len(), |i: int| Rgba { r: color.r, g: color.g, b: color.b, a: mask.cells[i] }),
    }
}

/// The layer of `color` whose alpha is the coverage of `mask`.
pub fn tint(mask: &AlphaMask, color: Rgb) -> (r: RgbaBitmap)
    ensures
        r@ == tinted(mask@, color),
{
    let mut pixels: Vec<Rgba> = Vec::new();
    let n = mask.alpha.len();
    let mut i: usize = 0;
    while i < n
        invariant
            n == mask.alpha@.len(),
            i <= n,
            pixels@.len() == i,
            forall|j: int| 0 <= j < i ==> pixels@[j] == (Rgba { r: color.r, g: color.g, b: color.b, a: mask.alpha@[j] }),
        decreases n - i,
    {
        pixels.push(Rgba { r: color.r, g: color.g, b: color.b, a: mask.alpha[i] });
        i = i + 1;
    }
    let r = RgbaBitmap { width: mask.width, height: mask.height, pixels };
    assert(r@.cells =~= tinted(mask@, color).cells);
    r
}

/// The sum of the advances of the first `k` glyphs.
pub open spec fn advance_sum(glyphs: Seq<Glyph>, k: int) -> int
    decreases k,
{
    if k <= 0 {
        0
    } else {
        advance_sum(glyphs, k - 1) + glyphs[k - 1].advance
    }
}

/// The horizontal extent of a run: the sum of its advances.
pub open spec fn text_width(glyphs: Seq<Glyph>) -> int {
    advance_sum(glyphs, glyphs.len() as int)
}

/// Where the pen starts so that a run of `width` pixels stands at `anchor`
/// as `alignment` asks.
pub open spec fn aligned_start(anchor: int, width: int, alignment: LabelAlignment) -> int {
    match alignment {
        LabelAlignment::Start => anchor,
        LabelAlignment::Center => anchor - width / 2,
        LabelAlignment::End => anchor - width,
    }
}

/// `c` with one glyph drawn at pen position `pen` on `baseline`: first its
/// outline coverage in `color`, then its colour image scaled to `size` pixels
/// per em, both clipped to `clip`.
pub open spec fn glyph_drawn(
    c: Grid<Rgb>,
    g: Glyph,
    pen: int,
    baseline: int,
    size: u32,
    color: Rgb,
    clip: Region,
) -> Grid<Rgb> {
    let with_outline = match g.outline {
        Some(o) => blended(
            c,
            tinted(o.mask@, color),
            clamp_i64(pen + o.left),
            clamp_i64(baseline + o.top),
            1,
            1,
            clip,
        ),
        None => c,
    };
    match g.color {
        Some(b) => blended(
            with_outline,
            b.bitmap@,
            clamp_i64(pen + b.left),
            clamp_i64(baseline + b.top),
            size as int,
            b.native_size as int,
            clip,
        ),
        None => with_outline,
    }
}

/// `c` with the first `k` glyphs drawn left to right from pen position `start`.
pub open spec fn text_prefix_drawn(
    c: Grid<Rgb>,
    glyphs: Seq<Glyph>,
    k: int,
    start: int,
    baseline: int,
    size: u32,
    color: Rgb,
    clip: Region,
) -> Grid<Rgb>
    decreases k,
{
    if k <= 0 {
        c
    } else {
        glyph_drawn(
            text_prefix_drawn(c, glyphs, k - 1, start, baseline, size, color, clip),
            glyphs[k - 1],
            start + advance_sum(glyphs, k - 1),
            baseline,
            size,
            color,
            clip,
        )
    }
}

/// `c` with the whole run drawn on one baseline, placed on `anchor` as
/// `alignment` asks.
pub open spec fn text_drawn(
    c: Grid<Rgb>,
    glyphs: Seq<Glyph>,
    anchor: int,
    baseline: int,
    size: u32,
    color: Rgb,
    alignment: LabelAlignment,
    clip: Region,
) -> Grid<Rgb> {
    text_prefix_drawn(
        c,
        glyphs,
        glyphs.len() as int,
        aligned_start(anchor, text_width(glyphs), alignment),
        baseline,
        size,
        color,
        clip,
    )
}

pub proof fn lemma_advance_sum_bounds(glyphs: Seq<Glyph>, k: int)
    requires
        0 <= k,
    ensures
        0 <= advance_sum(glyphs, k) <= k * u32::MAX,
    decreases k,
{
    if k > 0 {
        lemma_advance_sum_bounds(glyphs, k - 1);
        assert(advance_sum(glyphs, k - 1) + glyphs[k - 1].advance <= k * u32::MAX) by (nonlinear_arith)
            requires
                advance_sum(glyphs, k - 1) <= (k - 1) * u32::MAX,
                glyphs[k - 1].advance <= u32::MAX;
    }
}

/// Drawing glyphs changes no pixel outside the clip region.
pub proof fn lemma_text_keeps(
    c: Grid<Rgb>,
    glyphs: Seq<Glyph>,
    k: int,
    start: int,
    baseline: int,
    size: u32,
    color: Rgb,
    clip: Region,
    x: int,
    y: int,
)
    requires
        c.wf(),
        c.contains(x, y),
        !clip.contains(x, y),
    ensures
        text_prefix_drawn(c, glyphs, k, start, baseline, size, color, clip).wf(),
        text_prefix_drawn(c, glyphs, k, start, baseline, size, color, clip).width == c.width,
        text_prefix_drawn(c, glyphs, k, start, baseline, size, color, clip).height == c.height,
        text_prefix_drawn(c, glyphs, k, start, baseline, size, color, clip).at(x, y) == c.at(x, y),
    decreases k,
{
    if k > 0 {
        let prev = text_prefix_drawn(c, glyphs, k - 1, start, baseline, size, color, clip);
        lemma_text_keeps(c, glyphs, k - 1, start, baseline, size, color, clip, x, y);
        let g = glyphs[k - 1];
        let pen = start + advance_sum(glyphs, k - 1);
        let with_outline = match g.outline {
            Some(o) => blended(
                prev,
                tinted(o.mask@, color),
                clamp_i64(pen + o.left),
                clamp_i64(baseline + o.top),
                1,
                1,
                clip,
            ),
            None => prev,
        };
        match g.outline {
            Some(o) => {
                lemma_blended_keeps(prev, tinted(o.mask@, color), clamp_i64(pen + o.left), clamp_i64(baseline + o.top), 1, 1, clip, x, y);
            },
            None => {},
        }
        match g.color {
            Some(b) => {
                lemma_blended_keeps(
                    with_outline,
                    b.bitmap@,
                    clamp_i64(pen + b.left),
                    clamp_i64(baseline + b.top),
                    size as int,
                    b.native_size as int,
                    clip,
                    x,
                    y,
                );
            },
            None => {},
        }
    }
}

/// The total advance of a run.
pub fn measure_text(glyphs: &Vec<Glyph>) -> (r: u128)
    ensures
        r == text_width(glyphs@),
        r <= u64::MAX as int * u32::MAX,
{
    let mut total: u128 = 0;
    let mut i: usize = 0;
    while i < glyphs.len()
        invariant
            i <= glyphs@.len(),
            total == advance_sum(glyphs@, i as int),
        decreases glyphs@.len() - i,
    {
        proof {
            lemma_advance_sum_bounds(glyphs@, i as int + 1);
            assert((i as int + 1) * u32::MAX <= u64::MAX as int * u32::MAX) by (nonlinear_arith)
                requires i < glyphs@.len(), glyphs@.len() <= usize::MAX;
        }
        total = total + glyphs[i].advance as u128;
        i = i + 1;
    }
    proof {
        lemma_advance_sum_bounds(glyphs@, glyphs@.len() as int);
        assert(glyphs@.len() * u32::MAX <= u64::MAX as int * u32::MAX) by (nonlinear_arith)
            requires glyphs@.len() <= usize::MAX;
    }
    total
}

/// Where the pen starts for a run of total advance `width` on `anchor`.
pub fn align_start(anchor: i64, width: u128, alignment: LabelAlignment) -> (r: i128)
    requires
        width <= u64::MAX as int * u32::MAX,
    ensures
        r == aligned_start(anchor as int, width as int, alignment),
{
    match alignment {
        LabelAlignment::Start => anchor as i128,
        LabelAlignment::Center => anchor as i128 - (width / 2) as i128,
        LabelAlignment::End => anchor as i128 - width as i128,
    }
}

/// A bound on pen positions (2^112): anchors are `i64` and a run's total
/// advance stays below 2^96, so every pen position lies well inside it.
const PEN_LIMIT: i128 = 0x1_0000_0000_0000_0000_0000_0000_0000;

/// Draws one glyph with its pen at `pen` on `baseline`.
fn draw_glyph(
    canvas: &mut RgbImage,
    g: &Glyph,
    pen: i128,
    baseline: i64,
    size: u32,
    color: Rgb,
    clip: Region,
)
    requires
        -PEN_LIMIT < pen < PEN_LIMIT,
    ensures
        final(canvas)@ == glyph_drawn(old(canvas)@, *g, pen as int, baseline as int, size, color, clip),
{
    match &g.outline {
        Some(o) => {
            let layer = tint(&o.mask, color);
            let ox = saturate_to_i64(pen + o.left as i128);
            let oy = saturate_to_i64(baseline as i128 + o.top as i128);
            canvas.blend_layer(&layer, ox, oy, 1, 1, clip);
        },
        None => {},
    }
    match &g.color {
        Some(b) => {
            let ox = saturate_to_i64(pen + b.left as i128);
            let oy = saturate_to_i64(baseline as i128 + b.top as i128);
            canvas.blend_layer(&b.bitmap, ox, oy, size, b.native_size, clip);
        },
        None => {},
    }
}

/// Draws a run of glyphs on one baseline: each glyph's outline coverage is
/// blended in `color`, then its colour image (scaled to `size` pixels per em)
/// is blended by its own alpha. The run begins at, is centered on, or ends at
/// `anchor_x` as `alignment` asks. Only pixels inside `clip` change.
pub fn draw_text(
    canvas: &mut RgbImage,
    glyphs: &Vec<Glyph>,
    anchor_x: i64,
    baseline_y: i64,
    size: u32,
    color: Rgb,
    alignment: LabelAlignment,
    clip: Region,
)
    ensures
        final(canvas)@ == text_drawn(
            old(canvas)@,
            glyphs@,
            anchor_x as int,
            baseline_y as int,
            size,
            color,
            alignment,
            clip,
        ),
{
    let width = measure_text(glyphs);
    let count = glyphs.len();
    let start = align_start(anchor_x, width, alignment);
    let ghost c = canvas@;
    let mut pen: i128 = start;
    let mut k: usize = 0;
    while k < count
        invariant
            count == glyphs@.len(),
            k <= glyphs@.len(),
            start == aligned_start(anchor_x as int, text_width(glyphs@), alignment),
            -(u64::MAX as int * u32::MAX) - 0x1_0000_0000_0000_0000 <= start <= 0x1_0000_0000_0000_0000,
            pen == start + advance_sum(glyphs@, k as int),
            canvas@ == text_prefix_drawn(c, glyphs@, k as int, start as int, baseline_y as int, size, color, clip),
        decreases glyphs@.len() - k,
    {
        proof {
            lemma_advance_sum_bounds(glyphs@, k as int + 1);
            assert((k as int + 1) * u32::MAX <= u64::MAX as int * u32::MAX) by (nonlinear_arith)
                requires k < glyphs@.len(), glyphs@.len() <= usize::MAX;
        }
        let g = &glyphs[k];
        draw_glyph(canvas, g, pen, baseline_y, size, color, clip);
        pen = pen + g.advance as i128;
        k = k + 1;
    }
}

} // verus!
