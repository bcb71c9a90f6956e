use xyplot::layout::{plan_grid, GridGeometry, PlotError};
use xyplot::plot::{compose_plot, plan_plot, LabelGlyphs, PlotRequest};
use xyplot::raster::{Rgb, RgbImage};
use xyplot::text::{AlphaMask, Glyph, LabelAlignment, OutlineRaster};

const WHITE: Rgb = Rgb { r: 255, g: 255, b: 255 };
const BLACK: Rgb = Rgb { r: 0, g: 0, b: 0 };

fn solid(width: u32, height: u32, color: Rgb) -> RgbImage {
    RgbImage::filled(width, height, color).unwrap()
}

fn request(rows: u32) -> PlotRequest {
    PlotRequest {
        rows,
        row_labels: Vec::new(),
        column_labels: Vec::new(),
        image_labels: Vec::new(),
        row_label_alignment: LabelAlignment::Center,
        column_label_alignment: LabelAlignment::Center,
        top_padding: 40,
        left_padding: 60,
        label_size: 24,
        debug_mode: false,
    }
}

fn no_glyphs() -> LabelGlyphs {
    LabelGlyphs { rows: Vec::new(), columns: Vec::new(), images: Vec::new() }
}

fn strings(items: &[&str]) -> Vec<String> {
    items.iter().map(|s| s.to_string()).collect()
}

/// A glyph that covers a `w x h` box fully, its top-left corner `h` rows above
/// the baseline.
fn block_glyph(advance: u32, w: u32, h: u32) -> Glyph {
    Glyph {
        advance,
        outline: Some(OutlineRaster {
            left: 0,
            top: -(h as i32),
            mask: AlphaMask { width: w, height: h, alpha: vec![255; (w * h) as usize] },
        }),
        color: None,
    }
}

#[test]
fn two_images_side_by_side() {
    let red = Rgb { r: 200, g: 10, b: 10 };
    let blue = Rgb { r: 10, g: 10, b: 200 };
    let images = vec![solid(100, 100, red), solid(100, 100, blue)];
    let canvas = compose_plot(&images, &request(1), &no_glyphs()).unwrap();
    assert_eq!(canvas.width(), 200);
    assert_eq!(canvas.height(), 100);
    for y in [0u32, 50, 99] {
        for x in [0u32, 57, 99] {
            assert_eq!(canvas.get_pixel(x, y), red);
        }
        for x in [100u32, 150, 199] {
            assert_eq!(canvas.get_pixel(x, y), blue);
        }
    }
}

#[test]
fn nine_images_with_row_and_column_labels() {
    let images: Vec<RgbImage> = (0..9).map(|_| solid(100, 100, BLACK)).collect();
    let mut req = request(3);
    req.row_labels = strings(&["Top", "Middle", "Bottom"]);
    req.column_labels = strings(&["Left", "Center", "Right"]);
    let g = plan_plot(&req, images.len(), 100, 100).unwrap();
    assert_eq!(g.cols, 3);
    assert_eq!(g.left_padding, 60);
    assert_eq!(g.top_padding, 40);
    assert_eq!(g.canvas_width, 100 * 3 + 60);
    assert_eq!(g.canvas_height, (100 + 40) * 3 + 40);

    let run = vec![block_glyph(6, 5, 5), block_glyph(6, 5, 5)];
    let labels = LabelGlyphs {
        rows: vec![run.clone(), run.clone(), run.clone()],
        columns: vec![run.clone(), run.clone(), run.clone()],
        images: Vec::new(),
    };
    let canvas = compose_plot(&images, &req, &labels).unwrap();
    assert_eq!(canvas.width(), 360);
    assert_eq!(canvas.height(), 460);
    // Column label 0 is centered over column 0 (x = 60 + 50), on the baseline
    // 40 / 2 + 24 / 3 = 28: the run is 12 wide, so it spans x 104..115.
    assert_eq!(canvas.get_pixel(104, 27), BLACK);
    assert_eq!(canvas.get_pixel(114, 23), BLACK);
    assert_eq!(canvas.get_pixel(103, 27), WHITE);
    assert_eq!(canvas.get_pixel(109, 27), WHITE);
    // Row label 1 is centered in the left band (x = 30) beside row 1, whose
    // images start at y = 140 + 40 = 180: baseline 180 + 50 + 8 = 238.
    assert_eq!(canvas.get_pixel(24, 237), BLACK);
    assert_eq!(canvas.get_pixel(23, 237), WHITE);
    // Images sit below the bands.
    assert_eq!(canvas.get_pixel(60, 40), BLACK);
    assert_eq!(canvas.get_pixel(59, 40), WHITE);
    assert_eq!(canvas.get_pixel(60, 39), WHITE);
}

#[test]
fn too_many_row_labels_are_rejected() {
    let images = vec![solid(10, 10, BLACK)];
    let mut req = request(1);
    req.row_labels = strings(&["A", "B"]);
    let expected = PlotError::RowLabelCount { expected: 1, actual: 2 };
    assert_eq!(plan_plot(&req, 1, 10, 10), Err(expected));
    assert!(matches!(compose_plot(&images, &req, &no_glyphs()), Err(e) if e == expected));
}

#[test]
fn column_label_count_must_match_columns() {
    let mut req = request(2);
    req.column_labels = strings(&["a", "b", "c"]);
    // 5 images on 2 rows need 3 columns.
    assert!(plan_plot(&req, 5, 10, 10).is_ok());
    assert_eq!(
        plan_plot(&req, 4, 10, 10),
        Err(PlotError::ColumnLabelCount { expected: 2, actual: 3 })
    );
}

#[test]
fn image_label_count_must_match_images() {
    let mut req = request(1);
    req.image_labels = strings(&["a", "b"]);
    assert_eq!(
        plan_plot(&req, 3, 10, 10),
        Err(PlotError::ImageLabelCount { expected: 3, actual: 2 })
    );
}

#[test]
fn no_images_or_rows_are_rejected() {
    assert_eq!(plan_plot(&request(1), 0, 10, 10), Err(PlotError::NoImages));
    assert_eq!(plan_plot(&request(0), 3, 10, 10), Err(PlotError::ZeroRows));
    let images: Vec<RgbImage> = Vec::new();
    assert!(matches!(compose_plot(&images, &request(1), &no_glyphs()), Err(PlotError::NoImages)));
}

#[test]
fn oversized_canvas_is_an_overflow() {
    assert_eq!(plan_grid(1, 1, 1 << 31, 10, 0, 0), Err(PlotError::ArithmeticOverflow));
    assert_eq!(plan_grid(2, 1, 1 << 30, 10, 0, 0), Err(PlotError::ArithmeticOverflow));
    assert_eq!(plan_grid(1, 2, 10, 1 << 30, 0, 0), Err(PlotError::ArithmeticOverflow));
    assert!(plan_grid(1, 1, (1 << 31) - 1, 10, 0, 0).is_ok());
}

#[test]
fn columns_are_the_ceiling_of_images_over_rows() {
    for (n, rows, cols) in [(1usize, 1u32, 1usize), (7, 3, 3), (9, 3, 3), (10, 3, 4), (2, 5, 1)] {
        let g = plan_grid(n, rows, 4, 4, 0, 0).unwrap();
        assert_eq!(g.cols, cols);
    }
}

#[test]
fn every_image_gets_its_own_cell() {
    let g = plan_grid(7, 3, 10, 20, 5, 3).unwrap();
    let mut seen = Vec::new();
    for i in 0..7usize {
        let origin = g.cell_origin(i);
        assert_eq!(origin, (((i % 3) * 10 + 3) as u32, ((i / 3) * 25 + 5) as u32));
        assert!(!seen.contains(&origin));
        seen.push(origin);
    }
}

#[test]
fn canvas_size_follows_the_padding_rules() {
    let g = plan_grid(4, 2, 30, 20, 0, 0).unwrap();
    assert_eq!(
        g,
        GridGeometry {
            rows: 2,
            cols: 2,
            cell_width: 30,
            cell_height: 20,
            image_height: 20,
            top_padding: 0,
            left_padding: 0,
            canvas_width: 60,
            canvas_height: 40,
        }
    );
    // Column labels alone open the top bands but not the left band.
    let mut req = request(2);
    req.column_labels = strings(&["a", "b"]);
    let g = plan_plot(&req, 4, 30, 20).unwrap();
    assert_eq!((g.canvas_width, g.canvas_height), (60, (20 + 40) * 2 + 40));
    // Row labels that are all empty leave the left band closed.
    let mut req = request(2);
    req.row_labels = strings(&["", ""]);
    let g = plan_plot(&req, 4, 30, 20).unwrap();
    assert_eq!((g.canvas_width, g.canvas_height), (60, 160));
    req.row_labels = strings(&["", "x"]);
    let g = plan_plot(&req, 4, 30, 20).unwrap();
    assert_eq!((g.canvas_width, g.canvas_height), (120, 160));
}

#[test]
fn composing_twice_gives_the_same_canvas() {
    let images = vec![solid(8, 6, Rgb { r: 1, g: 2, b: 3 }), solid(5, 9, Rgb { r: 9, g: 8, b: 7 })];
    let mut req = request(1);
    req.column_labels = strings(&["x", "y"]);
    req.debug_mode = true;
    let labels = LabelGlyphs { rows: Vec::new(), columns: vec![vec![block_glyph(3, 2, 2)]; 2], images: Vec::new() };
    let a = compose_plot(&images, &req, &labels).unwrap();
    let b = compose_plot(&images, &req, &labels).unwrap();
    assert_eq!(a.width(), b.width());
    assert_eq!(a.height(), b.height());
    assert_eq!(a.pixels(), b.pixels());
}

#[test]
fn large_images_are_clipped_to_their_cell() {
    let red = Rgb { r: 255, g: 0, b: 0 };
    let green = Rgb { r: 0, g: 255, b: 0 };
    // The first image sets a 10 x 10 cell; the second is larger.
    let images = vec![solid(10, 10, red), solid(30, 30, green), solid(10, 10, red)];
    let canvas = compose_plot(&images, &request(2), &no_glyphs()).unwrap();
    assert_eq!((canvas.width(), canvas.height()), (20, 20));
    assert_eq!(canvas.get_pixel(10, 0), green);
    assert_eq!(canvas.get_pixel(19, 9), green);
    assert_eq!(canvas.get_pixel(0, 10), red);
    // The cell that no image fills stays white.
    assert_eq!(canvas.get_pixel(10, 10), WHITE);
    assert_eq!(canvas.get_pixel(19, 19), WHITE);
}

#[test]
fn smaller_images_leave_background_in_their_cell() {
    let blue = Rgb { r: 0, g: 0, b: 255 };
    let images = vec![solid(10, 10, blue), solid(4, 3, blue)];
    let canvas = compose_plot(&images, &request(1), &no_glyphs()).unwrap();
    assert_eq!(canvas.get_pixel(13, 2), blue);
    assert_eq!(canvas.get_pixel(14, 2), WHITE);
    assert_eq!(canvas.get_pixel(10, 3), WHITE);
}

#[test]
fn debug_mode_frames_each_cell() {
    let gray = Rgb { r: 50, g: 50, b: 50 };
    let red = Rgb { r: 255, g: 0, b: 0 };
    let images = vec![solid(10, 10, gray), solid(10, 10, gray)];
    let mut req = request(1);
    req.debug_mode = true;
    let canvas = compose_plot(&images, &req, &no_glyphs()).unwrap();
    assert_eq!(canvas.get_pixel(0, 0), red);
    assert_eq!(canvas.get_pixel(9, 5), red);
    assert_eq!(canvas.get_pixel(10, 5), red);
    assert_eq!(canvas.get_pixel(15, 9), red);
    assert_eq!(canvas.get_pixel(5, 5), gray);
    assert_eq!(canvas.get_pixel(14, 4), gray);
}

#[test]
fn image_labels_go_above_their_image() {
    let images = vec![solid(20, 10, WHITE), solid(20, 10, WHITE)];
    let mut req = request(1);
    req.image_labels = strings(&["a", "b"]);
    req.top_padding = 12;
    req.label_size = 6;
    let labels = LabelGlyphs { rows: Vec::new(), columns: Vec::new(), images: vec![Vec::new(), vec![block_glyph(4, 4, 2)]] };
    let canvas = compose_plot(&images, &req, &labels).unwrap();
    // Cell 1 starts at x = 20, y = 12; its label is centered on x = 30 with
    // baseline 0 + 6 + 2 = 8.
    assert_eq!(canvas.get_pixel(28, 7), BLACK);
    assert_eq!(canvas.get_pixel(31, 6), BLACK);
    assert_eq!(canvas.get_pixel(27, 7), WHITE);
    assert_eq!(canvas.get_pixel(32, 7), WHITE);
    assert_eq!(canvas.get_pixel(8, 7), WHITE);
}
