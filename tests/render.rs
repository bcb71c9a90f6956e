use xyplot::numeric::{saturate_to_i64, signed_to_unsigned, unsigned_to_signed};
use xyplot::raster::{blend_channel, blend_pixel, Region, Rgb, RgbImage, Rgba, RgbaBitmap};
use xyplot::text::{
    align_start, alignment_from_lowercase, draw_text, measure_text, parse_alignment, resolve_font, tint,
    AlphaMask, ColorRaster, FontChoice, Glyph, LabelAlignment, OutlineRaster,
};

const WHITE: Rgb = Rgb { r: 255, g: 255, b: 255 };

fn everywhere() -> Region {
    Region { left: 0, top: 0, right: u32::MAX, bottom: u32::MAX }
}

fn mask_glyph(advance: u32, w: u32, h: u32, alpha: u8) -> Glyph {
    Glyph {
        advance,
        outline: Some(OutlineRaster {
            left: 0,
            top: 0,
            mask: AlphaMask { width: w, height: h, alpha: vec![alpha; (w * h) as usize] },
        }),
        color: None,
    }
}

#[test]
fn zero_coverage_keeps_and_full_coverage_replaces() {
    for dst in [0u8, 17, 128, 255] {
        for src in [0u8, 99, 255] {
            assert_eq!(blend_channel(dst, src, 0), dst);
            assert_eq!(blend_channel(dst, src, 255), src);
        }
    }
    assert_eq!(blend_channel(0, 255, 128), 128);
    assert_eq!(blend_channel(255, 0, 128), 127);
    assert_eq!(blend_channel(100, 200, 51), 120);
    let dst = Rgb { r: 10, g: 20, b: 30 };
    assert_eq!(blend_pixel(dst, Rgba { r: 200, g: 100, b: 0, a: 0 }), dst);
    assert_eq!(blend_pixel(dst, Rgba { r: 200, g: 100, b: 0, a: 255 }), Rgb { r: 200, g: 100, b: 0 });
}

#[test]
fn integer_conversions_saturate() {
    assert_eq!(signed_to_unsigned(-5), 0);
    assert_eq!(signed_to_unsigned(i32::MIN), 0);
    assert_eq!(signed_to_unsigned(42), 42);
    assert_eq!(unsigned_to_signed(u32::MAX), i32::MAX);
    assert_eq!(unsigned_to_signed(1 << 31), i32::MAX);
    assert_eq!(unsigned_to_signed(7), 7);
    assert_eq!(saturate_to_i64(i128::MAX), i64::MAX);
    assert_eq!(saturate_to_i64(i128::MIN), i64::MIN);
    assert_eq!(saturate_to_i64(-3), -3);
}

#[test]
fn alignment_names_in_any_case() {
    assert_eq!(parse_alignment("start"), Some(LabelAlignment::Start));
    assert_eq!(parse_alignment("CENTER"), Some(LabelAlignment::Center));
    assert_eq!(parse_alignment("End"), Some(LabelAlignment::End));
    assert_eq!(parse_alignment("middle"), None);
    assert_eq!(parse_alignment(""), None);
    assert_eq!(alignment_from_lowercase("end"), Some(LabelAlignment::End));
    assert_eq!(alignment_from_lowercase("END"), None);
}

#[test]
fn primary_font_wins_when_it_has_an_outline() {
    assert_eq!(resolve_font(true), FontChoice::Primary);
    assert_eq!(resolve_font(false), FontChoice::Fallback);
}

#[test]
fn alignment_moves_the_pen_start() {
    assert_eq!(align_start(100, 30, LabelAlignment::Start), 100);
    assert_eq!(align_start(100, 30, LabelAlignment::Center), 85);
    assert_eq!(align_start(100, 31, LabelAlignment::Center), 85);
    assert_eq!(align_start(100, 30, LabelAlignment::End), 70);
    let run = vec![mask_glyph(7, 1, 1, 255), mask_glyph(5, 1, 1, 255)];
    assert_eq!(measure_text(&run), 12);
    assert_eq!(measure_text(&Vec::new()), 0);
}

#[test]
fn text_is_drawn_at_its_alignment() {
    let black = Rgb { r: 0, g: 0, b: 0 };
    let run = vec![mask_glyph(3, 2, 1, 255), mask_glyph(3, 2, 1, 255)];
    for (alignment, first) in [(LabelAlignment::Start, 10u32), (LabelAlignment::Center, 7), (LabelAlignment::End, 4)] {
        let mut canvas = RgbImage::filled(20, 3, WHITE).unwrap();
        draw_text(&mut canvas, &run, 10, 1, 16, black, alignment, everywhere());
        let row: Vec<Rgb> = (0..20).map(|x| canvas.get_pixel(x, 1)).collect();
        for x in 0..20u32 {
            let inked = x == first || x == first + 1 || x == first + 3 || x == first + 4;
            assert_eq!(row[x as usize], if inked { black } else { WHITE }, "x = {x}");
        }
        assert_eq!(canvas.get_pixel(first, 0), WHITE);
    }
}

#[test]
fn partial_coverage_blends_with_the_canvas() {
    let mut canvas = RgbImage::filled(4, 1, WHITE).unwrap();
    let run = vec![mask_glyph(1, 1, 1, 51)];
    draw_text(&mut canvas, &run, 2, 0, 16, Rgb { r: 0, g: 0, b: 0 }, LabelAlignment::Start, everywhere());
    assert_eq!(canvas.get_pixel(2, 0), Rgb { r: 204, g: 204, b: 204 });
    assert_eq!(canvas.get_pixel(1, 0), WHITE);
}

#[test]
fn text_outside_the_clip_or_canvas_is_dropped() {
    let black = Rgb { r: 0, g: 0, b: 0 };
    let mut canvas = RgbImage::filled(6, 2, WHITE).unwrap();
    let run = vec![mask_glyph(4, 4, 2, 255), mask_glyph(4, 4, 2, 255)];
    let clip = Region { left: 2, top: 0, right: 5, bottom: 1 };
    draw_text(&mut canvas, &run, -1, 0, 16, black, LabelAlignment::Start, clip);
    for y in 0..2u32 {
        for x in 0..6u32 {
            let inked = y == 0 && (2..5).contains(&x);
            assert_eq!(canvas.get_pixel(x, y), if inked { black } else { WHITE });
        }
    }
    // Far away anchors draw nothing and do not fail.
    draw_text(&mut canvas, &run, i64::MIN, i64::MAX, 16, black, LabelAlignment::End, everywhere());
    assert_eq!(canvas.get_pixel(0, 1), WHITE);
}

#[test]
fn colour_glyphs_are_scaled_by_nearest_neighbour() {
    let red = Rgba { r: 255, g: 0, b: 0, a: 255 };
    let blue = Rgba { r: 0, g: 0, b: 255, a: 255 };
    let clear = Rgba { r: 0, g: 255, b: 0, a: 0 };
    // A 2 x 1 image at 10 pixels per em drawn at 20: each pixel becomes 2 x 2.
    let emoji = Glyph {
        advance: 4,
        outline: None,
        color: Some(ColorRaster {
            left: 0,
            top: 0,
            native_size: 10,
            bitmap: RgbaBitmap { width: 3, height: 1, pixels: vec![red, blue, clear] },
        }),
    };
    let mut canvas = RgbImage::filled(8, 3, WHITE).unwrap();
    draw_text(&mut canvas, &vec![emoji], 1, 0, 20, Rgb { r: 0, g: 0, b: 0 }, LabelAlignment::Start, everywhere());
    let r = Rgb { r: 255, g: 0, b: 0 };
    let b = Rgb { r: 0, g: 0, b: 255 };
    for y in 0..2u32 {
        assert_eq!(canvas.get_pixel(0, y), WHITE);
        assert_eq!(canvas.get_pixel(1, y), r);
        assert_eq!(canvas.get_pixel(2, y), r);
        assert_eq!(canvas.get_pixel(3, y), b);
        assert_eq!(canvas.get_pixel(4, y), b);
        assert_eq!(canvas.get_pixel(5, y), WHITE);
        assert_eq!(canvas.get_pixel(6, y), WHITE);
    }
    assert_eq!(canvas.get_pixel(1, 2), WHITE);
}

#[test]
fn colour_glyph_goes_over_its_outline() {
    let gray = Rgb { r: 90, g: 90, b: 90 };
    let glyph = Glyph {
        advance: 2,
        outline: Some(OutlineRaster { left: 0, top: 0, mask: AlphaMask { width: 2, height: 1, alpha: vec![255, 255] } }),
        color: Some(ColorRaster {
            left: 0,
            top: 0,
            native_size: 16,
            bitmap: RgbaBitmap { width: 1, height: 1, pixels: vec![Rgba { r: 1, g: 2, b: 3, a: 255 }] },
        }),
    };
    let mut canvas = RgbImage::filled(3, 1, WHITE).unwrap();
    draw_text(&mut canvas, &vec![glyph], 0, 0, 16, gray, LabelAlignment::Start, everywhere());
    assert_eq!(canvas.get_pixel(0, 0), Rgb { r: 1, g: 2, b: 3 });
    assert_eq!(canvas.get_pixel(1, 0), gray);
    assert_eq!(canvas.get_pixel(2, 0), WHITE);
}

#[test]
fn tint_uses_coverage_as_alpha() {
    let mask = AlphaMask { width: 2, height: 1, alpha: vec![0, 200] };
    let layer = tint(&mask, Rgb { r: 5, g: 6, b: 7 });
    assert_eq!((layer.width, layer.height), (2, 1));
    assert_eq!(layer.pixels, vec![Rgba { r: 5, g: 6, b: 7, a: 0 }, Rgba { r: 5, g: 6, b: 7, a: 200 }]);
    assert_eq!(layer.pixel(1, 0).a, 200);
    assert_eq!(layer.pixel(2, 0).a, 0);
}

#[test]
fn short_masks_read_as_empty() {
    let mut canvas = RgbImage::filled(3, 1, WHITE).unwrap();
    let glyph = Glyph {
        advance: 3,
        outline: Some(OutlineRaster { left: 0, top: 0, mask: AlphaMask { width: 3, height: 1, alpha: vec![255] } }),
        color: None,
    };
    draw_text(&mut canvas, &vec![glyph], 0, 0, 16, Rgb { r: 0, g: 0, b: 0 }, LabelAlignment::Start, everywhere());
    assert_eq!(canvas.get_pixel(0, 0), Rgb { r: 0, g: 0, b: 0 });
    assert_eq!(canvas.get_pixel(1, 0), WHITE);
}

#[test]
fn images_are_built_from_exact_pixel_counts() {
    let p = Rgb { r: 1, g: 1, b: 1 };
    assert!(RgbImage::from_pixels(2, 2, vec![p; 3]).is_none());
    let img = RgbImage::from_pixels(2, 2, vec![p, p, p, Rgb { r: 9, g: 9, b: 9 }]).unwrap();
    assert_eq!(img.get_pixel(1, 1), Rgb { r: 9, g: 9, b: 9 });
    assert!(RgbImage::filled(0, 5, p).unwrap().pixels().is_empty());
}

#[test]
fn fill_and_paste_stay_inside_their_regions() {
    let mut canvas = RgbImage::filled(4, 4, WHITE).unwrap();
    let dark = Rgb { r: 10, g: 10, b: 10 };
    canvas.fill_region(Region { left: 3, top: 3, right: 100, bottom: 100 }, dark);
    assert_eq!(canvas.get_pixel(3, 3), dark);
    assert_eq!(canvas.get_pixel(2, 3), WHITE);
    let src = RgbImage::filled(3, 3, Rgb { r: 7, g: 7, b: 7 }).unwrap();
    canvas.paste(&src, 1, 1, Region { left: 1, top: 1, right: 3, bottom: 2 });
    assert_eq!(canvas.get_pixel(1, 1), Rgb { r: 7, g: 7, b: 7 });
    assert_eq!(canvas.get_pixel(2, 1), Rgb { r: 7, g: 7, b: 7 });
    assert_eq!(canvas.get_pixel(3, 1), WHITE);
    assert_eq!(canvas.get_pixel(1, 2), WHITE);
}

#[test]
fn layers_blend_at_negative_offsets() {
    let mut canvas = RgbImage::filled(2, 2, WHITE).unwrap();
    let layer = RgbaBitmap { width: 2, height: 2, pixels: vec![Rgba { r: 0, g: 0, b: 0, a: 255 }; 4] };
    canvas.blend_layer(&layer, -1, -1, 1, 1, everywhere());
    assert_eq!(canvas.get_pixel(0, 0), Rgb { r: 0, g: 0, b: 0 });
    assert_eq!(canvas.get_pixel(1, 0), WHITE);
    assert_eq!(canvas.get_pixel(0, 1), WHITE);
    canvas.blend_layer(&layer, 0, 0, 1, 0, everywhere());
    assert_eq!(canvas.get_pixel(1, 1), WHITE);
}
